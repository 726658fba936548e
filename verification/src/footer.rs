//! The footer of a note: the markers that frame it, and how to add them.
use vstd::prelude::*;
use crate::text::{
    append, chars_of, contains_run, end_trimmed, find_run, first_occurrence, is_substring,
    slice_of, string_of, trim_end,
};

verus! {

/// The marker that ends the footer.
pub const FOOTER_END: &'static str = "<!-- footer_end -->";

/// The marker that starts the footer.
pub const FOOTER_START: &'static str = "<!-- footer_start -->";

/// The heading of the footer.
pub const FOOTER_HEADING: &'static str = "## Footer";

/// The heading of the metadata in a footer of the first format.
pub const METADATA_HEADING: &'static str = "### Metadata";

/// How the metadata of a footer of the second format begins.
pub const FOOTER_META: &'static str = "<!-- footer_meta";

/// Something that a note's footer lacks.
#[derive(Debug, Clone, Copy, PartialEq, Eq, Structural)]
pub enum FooterIssueType {
    /// No end marker.
    MissingEnd,
    /// A footer heading, but no start marker.
    MissingStart,
    /// A metadata heading, but no metadata of the second format.
    MetadataNeedsMigration,
}

/// What the footer of `content` lacks. The start marker and the metadata
/// are looked at only where `include_migration` is set.
pub open spec fn footer_issues(content: Seq<char>, include_migration: bool) -> Seq<FooterIssueType> {
    (if !is_substring(FOOTER_END@, content) {
        seq![FooterIssueType::MissingEnd]
    } else {
        Seq::empty()
    }) + (if include_migration && is_substring(FOOTER_HEADING@, content) && !is_substring(
        FOOTER_START@,
        content,
    ) {
        seq![FooterIssueType::MissingStart]
    } else {
        Seq::empty()
    }) + (if include_migration && is_substring(METADATA_HEADING@, content) && !is_substring(
        FOOTER_META@,
        content,
    ) {
        seq![FooterIssueType::MetadataNeedsMigration]
    } else {
        Seq::empty()
    })
}

/// `content` with the end marker after it: the whitespace at its end gives
/// way to an empty line, the marker and a line end.
pub open spec fn with_footer_end(content: Seq<char>) -> Seq<char> {
    end_trimmed(content) + "\n\n"@ + FOOTER_END@ + "\n"@
}

/// `content` with the start marker and an empty line before its first
/// footer heading; `content` itself if it has no footer heading.
pub open spec fn with_footer_start(content: Seq<char>) -> Seq<char> {
    match first_occurrence(FOOTER_HEADING@, content) {
        Some(at) => content.take(at) + FOOTER_START@ + "\n\n"@ + content.skip(at),
        None => content,
    }
}

/// Finds what the footer of `content` lacks.
pub fn analyze_footer(content: &str, include_migration: bool) -> (issues: Vec<FooterIssueType>)
    ensures
        issues@ == footer_issues(content@, include_migration),
{
    let chars = chars_of(content);
    let mut issues: Vec<FooterIssueType> = Vec::new();
    if !contains_run(&chars, &chars_of(FOOTER_END)) {
        issues.push(FooterIssueType::MissingEnd);
    }
    if include_migration {
        if contains_run(&chars, &chars_of(FOOTER_HEADING)) && !contains_run(
            &chars,
            &chars_of(FOOTER_START),
        ) {
            issues.push(FooterIssueType::MissingStart);
        }
        if contains_run(&chars, &chars_of(METADATA_HEADING)) && !contains_run(
            &chars,
            &chars_of(FOOTER_META),
        ) {
            issues.push(FooterIssueType::MetadataNeedsMigration);
        }
    }
    assert(issues@ =~= footer_issues(content@, include_migration));
    issues
}

/// Puts the end marker at the end of `content`.
pub fn add_footer_end(content: &str) -> (r: String)
    ensures
        r@ == with_footer_end(content@),
{
    let mut out = trim_end(&chars_of(content));
    append(&mut out, &chars_of("\n\n"));
    append(&mut out, &chars_of(FOOTER_END));
    append(&mut out, &chars_of("\n"));
    let r = string_of(&out, 0, out.len());
    assert(out@.subrange(0, out.len() as int) == out@);
    r
}

/// Puts the start marker before the first footer heading of `content`.
pub fn add_footer_start(content: &str) -> (r: String)
    ensures
        r@ == with_footer_start(content@),
{
    let chars = chars_of(content);
    match find_run(&chars, &chars_of(FOOTER_HEADING)) {
        Some(at) => {
            let mut out = slice_of(&chars, 0, at);
            append(&mut out, &chars_of(FOOTER_START));
            append(&mut out, &chars_of("\n\n"));
            append(&mut out, &slice_of(&chars, at, chars.len()));
            proof {
                assert(chars@.subrange(0, at as int) == chars@.take(at as int));
                assert(chars@.subrange(at as int, chars.len() as int) == chars@.skip(at as int));
                assert(out@.subrange(0, out.len() as int) == out@);
            }
            string_of(&out, 0, out.len())
        },
        None => {
            let r = string_of(&chars, 0, chars.len());
            assert(chars@.subrange(0, chars.len() as int) == chars@);
            r
        },
    }
}

} // verus!
