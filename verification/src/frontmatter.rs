//! The frontmatter of a note: the fields between the `---` lines at its top.
use vstd::prelude::*;
use vstd::string::StringExecFns;
use crate::record::{clone_option, clone_strings, option_view};
use crate::schema::{
    is_valid_area, is_valid_status, is_valid_type, valid_area, valid_status, valid_type,
    violation_views, SchemaViolation, ViolationView,
};
use crate::pattern::{capture_first, first_capture};
use crate::text::{
    char_views, chars_of, contains_char, has_prefix, join, joined, lines, pieces, same_text,
    split_lines, split_on, starts_with, string_of, string_views, trim, trimmed, unicode_lowercase,
};

verus! {

/// The fields of a note's frontmatter.
#[derive(Debug)]
pub struct Frontmatter {
    pub note_type: Option<String>,
    pub status: Option<String>,
    pub area: Option<String>,
    pub gist: Option<String>,
    pub tags: Vec<String>,
    /// The text between the `---` lines.
    pub raw: String,
}

/// A frontmatter as plain values.
pub struct FrontmatterView {
    pub note_type: Option<Seq<char>>,
    pub status: Option<Seq<char>>,
    pub area: Option<Seq<char>>,
    pub gist: Option<Seq<char>>,
    pub tags: Seq<Seq<char>>,
    pub raw: Seq<char>,
}

impl View for Frontmatter {
    type V = FrontmatterView;

    open spec fn view(&self) -> FrontmatterView {
        FrontmatterView {
            note_type: option_view(self.note_type),
            status: option_view(self.status),
            area: option_view(self.area),
            gist: option_view(self.gist),
            tags: string_views(self.tags@),
            raw: self.raw@,
        }
    }
}

impl Clone for Frontmatter {
    fn clone(&self) -> (r: Self)
        ensures
            r@ == self@,
    {
        Frontmatter {
            note_type: clone_option(&self.note_type),
            status: clone_option(&self.status),
            area: clone_option(&self.area),
            gist: clone_option(&self.gist),
            tags: clone_strings(&self.tags),
            raw: self.raw.clone(),
        }
    }
}

impl Default for Frontmatter {
    fn default() -> (r: Self)
        ensures
            r@ == (FrontmatterView {
                note_type: None,
                status: None,
                area: None,
                gist: None,
                tags: Seq::empty(),
                raw: Seq::empty(),
            }),
    {
        let r = Frontmatter {
            note_type: None,
            status: None,
            area: None,
            gist: None,
            tags: Vec::new(),
            raw: String::new(),
        };
        assert(string_views(r.tags@) =~= Seq::<Seq<char>>::empty());
        r
    }
}

/// What is wrong with the `type` field.
pub open spec fn type_violations(t: Option<Seq<char>>) -> Seq<ViolationView> {
    match t {
        None => seq![ViolationView::MissingField("type"@)],
        Some(t) => if valid_type(t) {
            Seq::empty()
        } else {
            seq![ViolationView::InvalidType(t)]
        },
    }
}

/// What is wrong with the `status` field.
pub open spec fn status_violations(s: Option<Seq<char>>) -> Seq<ViolationView> {
    match s {
        None => seq![ViolationView::MissingField("status"@)],
        Some(s) => if valid_status(s) {
            Seq::empty()
        } else {
            seq![ViolationView::InvalidStatus(s)]
        },
    }
}

/// What is wrong with the `area` field.
pub open spec fn area_violations(a: Option<Seq<char>>) -> Seq<ViolationView> {
    match a {
        None => seq![ViolationView::MissingField("area"@)],
        Some(a) => if valid_area(a) {
            Seq::empty()
        } else {
            seq![ViolationView::InvalidArea(a)]
        },
    }
}

/// What is wrong with the `gist` field: it may not be missing.
pub open spec fn gist_violations(g: Option<Seq<char>>) -> Seq<ViolationView> {
    match g {
        None => seq![ViolationView::MissingField("gist"@)],
        Some(_) => Seq::empty(),
    }
}

/// What is wrong with the number of tags: there may be five at most.
pub open spec fn count_violations(tags: Seq<Seq<char>>) -> Seq<ViolationView> {
    if tags.len() > 5 {
        seq![ViolationView::TooManyTags(tags.len() as usize)]
    } else {
        Seq::empty()
    }
}

/// What is wrong with one tag: it may hold no `/`, and must be its own
/// lowercase form.
pub open spec fn tag_violations(tag: Seq<char>) -> Seq<ViolationView> {
    (if tag.contains('/') {
        seq![ViolationView::HierarchicalTag(tag)]
    } else {
        Seq::empty()
    }) + (if tag != unicode_lowercase(tag) {
        seq![ViolationView::NonLowercaseTag(tag)]
    } else {
        Seq::empty()
    })
}

/// What is wrong with the tags, tag by tag.
pub open spec fn tags_violations(tags: Seq<Seq<char>>) -> Seq<ViolationView>
    decreases tags.len(),
{
    if tags.len() == 0 {
        Seq::empty()
    } else {
        tags_violations(tags.drop_last()) + tag_violations(tags.last())
    }
}

/// Everything that is wrong with a frontmatter, in the order type, status,
/// area, gist, number of tags, tags.
pub open spec fn violations(fm: FrontmatterView) -> Seq<ViolationView> {
    type_violations(fm.note_type) + status_violations(fm.status) + area_violations(fm.area)
        + gist_violations(fm.gist) + count_violations(fm.tags) + tags_violations(fm.tags)
}

/// Appends `v` to `out`.
fn record_violation(out: &mut Vec<SchemaViolation>, v: SchemaViolation)
    ensures
        violation_views(final(out)@) == violation_views(old(out)@).push(v@),
{
    assert(violation_views(out@.push(v)) =~= violation_views(out@).push(v@));
    out.push(v);
}

fn check_type(t: &Option<String>, out: &mut Vec<SchemaViolation>)
    ensures
        violation_views(final(out)@) == violation_views(old(out)@) + type_violations(option_view(*t)),
{
    let ghost before = violation_views(out@);
    match t {
        None => {
            record_violation(out, SchemaViolation::MissingField(String::from_str("type")));
        },
        Some(t) => {
            if !is_valid_type(t.as_str()) {
                record_violation(out, SchemaViolation::InvalidType(t.clone()));
            }
        },
    }
    assert(violation_views(out@) =~= before + type_violations(option_view(*t)));
}

fn check_status(s: &Option<String>, out: &mut Vec<SchemaViolation>)
    ensures
        violation_views(final(out)@) == violation_views(old(out)@) + status_violations(
            option_view(*s),
        ),
{
    let ghost before = violation_views(out@);
    match s {
        None => {
            record_violation(out, SchemaViolation::MissingField(String::from_str("status")));
        },
        Some(s) => {
            if !is_valid_status(s.as_str()) {
                record_violation(out, SchemaViolation::InvalidStatus(s.clone()));
            }
        },
    }
    assert(violation_views(out@) =~= before + status_violations(option_view(*s)));
}

fn check_area(a: &Option<String>, out: &mut Vec<SchemaViolation>)
    ensures
        violation_views(final(out)@) == violation_views(old(out)@) + area_violations(option_view(*a)),
{
    let ghost before = violation_views(out@);
    match a {
        None => {
            record_violation(out, SchemaViolation::MissingField(String::from_str("area")));
        },
        Some(a) => {
            if !is_valid_area(a.as_str()) {
                record_violation(out, SchemaViolation::InvalidArea(a.clone()));
            }
        },
    }
    assert(violation_views(out@) =~= before + area_violations(option_view(*a)));
}

fn check_gist(g: &Option<String>, out: &mut Vec<SchemaViolation>)
    ensures
        violation_views(final(out)@) == violation_views(old(out)@) + gist_violations(option_view(*g)),
{
    let ghost before = violation_views(out@);
    if g.is_none() {
        record_violation(out, SchemaViolation::MissingField(String::from_str("gist")));
    }
    assert(violation_views(out@) =~= before + gist_violations(option_view(*g)));
}

fn check_count(tags: &Vec<String>, out: &mut Vec<SchemaViolation>)
    ensures
        violation_views(final(out)@) == violation_views(old(out)@) + count_violations(
            string_views(tags@),
        ),
{
    let ghost before = violation_views(out@);
    if tags.len() > 5 {
        record_violation(out, SchemaViolation::TooManyTags(tags.len()));
    }
    assert(violation_views(out@) =~= before + count_violations(string_views(tags@)));
}

fn check_tag(tag: &String, out: &mut Vec<SchemaViolation>)
    ensures
        violation_views(final(out)@) == violation_views(old(out)@) + tag_violations(tag@),
{
    let ghost before = violation_views(out@);
    let chars = chars_of(tag.as_str());
    if contains_char(&chars, '/') {
        record_violation(out, SchemaViolation::HierarchicalTag(tag.clone()));
    }
    let lower = tag.as_str().to_lowercase();
    if !(*tag == lower) {
        record_violation(out, SchemaViolation::NonLowercaseTag(tag.clone()));
    }
    assert(violation_views(out@) =~= before + tag_violations(tag@));
}

fn check_tags(tags: &Vec<String>, out: &mut Vec<SchemaViolation>)
    ensures
        violation_views(final(out)@) == violation_views(old(out)@) + tags_violations(
            string_views(tags@),
        ),
{
    let ghost before = violation_views(out@);
    let ghost all = string_views(tags@);
    let mut i: usize = 0;
    proof {
        assert(all.take(0) =~= Seq::empty());
        assert(before + tags_violations(all.take(0)) =~= before);
    }
    while i < tags.len()
        invariant
            i <= tags.len(),
            all == string_views(tags@),
            violation_views(out@) == before + tags_violations(all.take(i as int)),
        decreases tags.len() - i,
    {
        let ghost sofar = violation_views(out@);
        check_tag(&tags[i], out);
        proof {
            let next = all.take(i + 1);
            assert(next.drop_last() == all.take(i as int));
            assert(next.last() == tags[i as int]@);
            assert(sofar + tag_violations(tags[i as int]@) =~= before + (tags_violations(
                all.take(i as int),
            ) + tag_violations(tags[i as int]@)));
        }
        i = i + 1;
    }
    assert(all.take(tags.len() as int) == all);
}

impl Frontmatter {
    /// Checks the fields against the schema.
    pub fn validate(&self) -> (out: Vec<SchemaViolation>)
        ensures
            violation_views(out@) == violations(self@),
    {
        let mut out: Vec<SchemaViolation> = Vec::new();
        assert(violation_views(out@) =~= Seq::empty());
        check_type(&self.note_type, &mut out);
        assert(violation_views(out@) =~= type_violations(self@.note_type));
        check_status(&self.status, &mut out);
        check_area(&self.area, &mut out);
        check_gist(&self.gist, &mut out);
        check_count(&self.tags, &mut out);
        check_tags(&self.tags, &mut out);
        out
    }
}

/// The frontmatter block: what stands between a `---` line at the very
/// start of the text and the next `---`.
pub const FRONTMATTER_PATTERN: &'static str = r"(?s)^---\r?\n(.*?)\r?\n---";

/// A `type:` line and the word on it.
pub const TYPE_PATTERN: &'static str = r"(?m)^type:\s*(\w+)";

/// A `status:` line and the word on it.
pub const STATUS_PATTERN: &'static str = r"(?m)^status:\s*(\w+)";

/// An `area:` line and the word on it.
pub const AREA_PATTERN: &'static str = r"(?m)^area:\s*(\w+)";

/// A `gist:` line and the rest of it.
pub const GIST_PATTERN: &'static str = r"(?m)^gist:\s*(.*)";

/// A `tags:` line and what stands between its square brackets.
pub const TAGS_PATTERN: &'static str = r"(?m)^tags:\s*\[(.*?)\]";

/// A tag or a summary without the whitespace and the quotes around it.
pub open spec fn unquoted(s: Seq<char>) -> Seq<char> {
    trimmed(trimmed(trimmed(s, None), Some('"')), Some('\''))
}

/// The tags among `parts`: each part unquoted, empty ones left out.
pub open spec fn clean_tags(parts: Seq<Seq<char>>) -> Seq<Seq<char>>
    decreases parts.len(),
{
    if parts.len() == 0 {
        Seq::empty()
    } else {
        let rest = clean_tags(parts.drop_last());
        let tag = unquoted(parts.last());
        if tag.len() == 0 {
            rest
        } else {
            rest.push(tag)
        }
    }
}

/// The tags that the raw frontmatter lists: the parts, cut at commas, of
/// what stands between the brackets of its `tags:` line.
pub open spec fn tags_of(raw: Seq<char>) -> Seq<Seq<char>> {
    match first_capture(TAGS_PATTERN@, raw) {
        Some(list) => clean_tags(pieces(list, ',')),
        None => Seq::empty(),
    }
}

/// Where the first of `ls` that begins with `prefix` stands; the length of
/// `ls` if none does.
pub open spec fn first_with_prefix(ls: Seq<Seq<char>>, prefix: Seq<char>) -> nat
    decreases ls.len(),
{
    if ls.len() == 0 || has_prefix(ls[0], prefix) {
        0
    } else {
        1 + first_with_prefix(ls.drop_first(), prefix)
    }
}

/// Whether a line continues a folded summary: it begins with a space or a
/// tab.
pub open spec fn is_indented(line: Seq<char>) -> bool {
    line.len() > 0 && (line[0] == ' ' || line[0] == '\t')
}

/// The lines of a folded summary at the start of `ls`, each trimmed:
/// indented lines, with blank lines between them passed over, up to the
/// first line that is neither.
pub open spec fn folded_lines(ls: Seq<Seq<char>>) -> Seq<Seq<char>>
    decreases ls.len(),
{
    if ls.len() == 0 {
        Seq::empty()
    } else if is_indented(ls[0]) {
        seq![trimmed(ls[0], None)] + folded_lines(ls.drop_first())
    } else if trimmed(ls[0], None).len() == 0 {
        folded_lines(ls.drop_first())
    } else {
        Seq::empty()
    }
}

/// `s` if it is not empty.
pub open spec fn non_empty(s: Seq<char>) -> Option<Seq<char>> {
    if s.len() == 0 {
        None
    } else {
        Some(s)
    }
}

/// The summary that is folded over the lines after the `gist:` line.
pub open spec fn folded_gist(raw: Seq<char>) -> Option<Seq<char>> {
    let ls = lines(raw);
    let at = first_with_prefix(ls, "gist:"@) as int;
    if at >= ls.len() {
        None
    } else {
        non_empty(joined(folded_lines(ls.skip(at + 1)), " "@))
    }
}

/// The summary in the raw frontmatter. What [`GIST_PATTERN`] captures after
/// `gist:` is the summary, without the whitespace and the quotes around it;
/// where that is `>`, `|` or nothing, the summary is folded over the lines
/// below the `gist:` line. An empty summary is none.
pub open spec fn gist_of(raw: Seq<char>) -> Option<Seq<char>> {
    match first_capture(GIST_PATTERN@, raw) {
        None => None,
        Some(rest) => {
            let start = trimmed(rest, None);
            if start == ">"@ || start == "|"@ || start.len() == 0 {
                folded_gist(raw)
            } else {
                non_empty(trimmed(trimmed(start, Some('"')), Some('\'')))
            }
        },
    }
}

/// The frontmatter of a note's text, if it has one.
pub open spec fn parsed(content: Seq<char>) -> Option<FrontmatterView> {
    match first_capture(FRONTMATTER_PATTERN@, content) {
        None => None,
        Some(raw) => Some(
            FrontmatterView {
                note_type: first_capture(TYPE_PATTERN@, raw),
                status: first_capture(STATUS_PATTERN@, raw),
                area: first_capture(AREA_PATTERN@, raw),
                gist: gist_of(raw),
                tags: tags_of(raw),
                raw,
            },
        ),
    }
}

/// The view of an optional frontmatter.
pub open spec fn parse_view(o: Option<Frontmatter>) -> Option<FrontmatterView> {
    match o {
        Some(fm) => Some(fm@),
        None => None,
    }
}

/// The string of `chars`, if there are any.
fn non_empty_string(chars: &Vec<char>) -> (r: Option<String>)
    ensures
        option_view(r) == non_empty(chars@),
{
    if chars.len() == 0 {
        None
    } else {
        let s = string_of(chars, 0, chars.len());
        assert(chars@.subrange(0, chars.len() as int) == chars@);
        Some(s)
    }
}

/// `chars` without the whitespace and the quotes around it.
fn unquote(chars: &Vec<char>) -> (r: Vec<char>)
    ensures
        r@ == unquoted(chars@),
{
    let a = trim(chars, None);
    let b = trim(&a, Some('"'));
    trim(&b, Some('\''))
}

/// The summary that is folded over the lines after the `gist:` line.
fn fold_gist(raw: &str) -> (r: Option<String>)
    ensures
        option_view(r) == folded_gist(raw@),
{
    let chars = chars_of(raw);
    let ls = split_lines(&chars);
    let ghost all = char_views(ls@);
    let prefix = chars_of("gist:");
    let mut at: usize = 0;
    assert(all.skip(0) == all);
    while at < ls.len() && !starts_with(&ls[at], &prefix)
        invariant
            at <= ls.len(),
            all == char_views(ls@),
            prefix@ == "gist:"@,
            first_with_prefix(all, prefix@) == at + first_with_prefix(all.skip(at as int), prefix@),
        decreases ls.len() - at,
    {
        proof {
            let rest = all.skip(at as int);
            assert(rest[0] == ls[at as int]@);
            assert(rest.drop_first() == all.skip(at + 1));
        }
        at = at + 1;
    }
    proof {
        let rest = all.skip(at as int);
        if at < ls.len() {
            assert(rest[0] == ls[at as int]@);
        }
        assert(first_with_prefix(rest, prefix@) == 0);
    }
    if at >= ls.len() {
        return None;
    }
    let mut folded: Vec<Vec<char>> = Vec::new();
    let mut i: usize = at + 1;
    let ghost tail = all.skip(at + 1);
    let mut open = true;
    proof {
        assert(tail.skip(0) == tail);
        assert(char_views(folded@) + folded_lines(tail) == folded_lines(tail));
    }
    while open && i < ls.len()
        invariant
            at + 1 <= i <= ls.len(),
            all == char_views(ls@),
            tail == all.skip(at + 1),
            open ==> folded_lines(tail) == char_views(folded@) + folded_lines(
                tail.skip(i - (at + 1)),
            ),
            !open ==> folded_lines(tail) == char_views(folded@),
        decreases ls.len() - i, open as int,
    {
        let line = &ls[i];
        let ghost rest = tail.skip(i - (at + 1));
        proof {
            assert(rest[0] == line@);
            assert(rest.drop_first() == tail.skip(i + 1 - (at + 1)));
        }
        let stripped = trim(line, None);
        if line.len() > 0 && (line[0] == ' ' || line[0] == '\t') {
            proof {
                assert(char_views(folded@.push(stripped)) == char_views(folded@) + seq![stripped@]);
                assert((char_views(folded@) + seq![stripped@]) + folded_lines(rest.drop_first())
                    == char_views(folded@) + (seq![stripped@] + folded_lines(rest.drop_first())));
            }
            folded.push(stripped);
            i = i + 1;
        } else if stripped.len() == 0 {
            i = i + 1;
        } else {
            proof {
                assert(char_views(folded@) + Seq::<Seq<char>>::empty() == char_views(folded@));
            }
            open = false;
        }
    }
    proof {
        if open {
            assert(tail.skip(ls.len() - (at + 1)).len() == 0);
            assert(char_views(folded@) + Seq::<Seq<char>>::empty() == char_views(folded@));
        }
        reveal_strlit(" ");
    }
    let space = chars_of(" ");
    let text = join(&folded, &space);
    non_empty_string(&text)
}

impl Frontmatter {
    /// Reads the frontmatter at the top of a note's text. A text that does
    /// not begin with a frontmatter block has none.
    pub fn parse(content: &str) -> (r: Option<Self>)
        ensures
            parse_view(r) == parsed(content@),
    {
        let raw = match capture_first(FRONTMATTER_PATTERN, content) {
            Some(raw) => raw,
            None => {
                return None;
            },
        };
        let note_type = capture_first(TYPE_PATTERN, raw.as_str());
        let status = capture_first(STATUS_PATTERN, raw.as_str());
        let area = capture_first(AREA_PATTERN, raw.as_str());
        let gist = Self::extract_gist(raw.as_str());
        let tags = Self::extract_tags(raw.as_str());
        Some(Frontmatter { note_type, status, area, gist, tags, raw })
    }

    /// The summary in the raw frontmatter.
    pub fn extract_gist(raw: &str) -> (r: Option<String>)
        ensures
            option_view(r) == gist_of(raw@),
    {
        let rest = match capture_first(GIST_PATTERN, raw) {
            Some(rest) => rest,
            None => {
                return None;
            },
        };
        let start = trim(&chars_of(rest.as_str()), None);
        let start_text = string_of(&start, 0, start.len());
        assert(start@.subrange(0, start.len() as int) == start@);
        if same_text(start_text.as_str(), ">") || same_text(start_text.as_str(), "|")
            || start.len() == 0 {
            fold_gist(raw)
        } else {
            let a = trim(&start, Some('"'));
            let b = trim(&a, Some('\''));
            non_empty_string(&b)
        }
    }

    /// The tags that the raw frontmatter lists.
    pub fn extract_tags(raw: &str) -> (out: Vec<String>)
        ensures
            string_views(out@) == tags_of(raw@),
    {
        let mut out: Vec<String> = Vec::new();
        let list = match capture_first(TAGS_PATTERN, raw) {
            Some(list) => list,
            None => {
                assert(string_views(out@) =~= Seq::<Seq<char>>::empty());
                return out;
            },
        };
        let parts = split_on(&chars_of(list.as_str()), ',');
        let ghost all = char_views(parts@);
        let mut i: usize = 0;
        proof {
            assert(all.take(0).len() == 0);
            assert(string_views(out@) =~= clean_tags(all.take(0)));
        }
        while i < parts.len()
            invariant
                i <= parts.len(),
                all == char_views(parts@),
                string_views(out@) == clean_tags(all.take(i as int)),
            decreases parts.len() - i,
        {
            let tag = unquote(&parts[i]);
            proof {
                let next = all.take(i + 1);
                assert(next.drop_last() == all.take(i as int));
                assert(next.last() == parts[i as int]@);
            }
            if tag.len() > 0 {
                let s = string_of(&tag, 0, tag.len());
                proof {
                    assert(tag@.subrange(0, tag.len() as int) == tag@);
                    assert(string_views(out@.push(s)) =~= string_views(out@).push(s@));
                }
                out.push(s);
            }
            i = i + 1;
        }
        assert(all.take(parts.len() as int) == all);
        out
    }
}

} // verus!
