use vault_tools::footer::FooterIssueType::{MetadataNeedsMigration, MissingEnd, MissingStart};
use vault_tools::footer::{add_footer_end, add_footer_start, analyze_footer};
use vault_tools::text::{chars_of, find_run, trim_end, truncate};

#[test]
fn footer_issues_are_found() {
    assert_eq!(analyze_footer("", false), vec![MissingEnd]);
    assert_eq!(analyze_footer("", true), vec![MissingEnd]);
    assert!(analyze_footer("text\n<!-- footer_end -->\n", true).is_empty());
    let old = "body\n## Footer\n### Metadata\n- **Created**: today\n";
    assert_eq!(analyze_footer(old, false), vec![MissingEnd]);
    assert_eq!(analyze_footer(old, true), vec![MissingEnd, MissingStart, MetadataNeedsMigration]);
    let new = "body\n<!-- footer_start -->\n## Footer\n<!-- footer_meta\nx: 1\n-->\n### Metadata\n<!-- footer_end -->";
    assert!(analyze_footer(new, true).is_empty());
    let half = "## Footer\n<!-- footer_end -->";
    assert_eq!(analyze_footer(half, true), vec![MissingStart]);
    assert!(analyze_footer(half, false).is_empty());
}

#[test]
fn footer_end_goes_after_the_text() {
    for content in ["", "text", "text\n", "text \n\n\t", "  lead", "\n", "한국어\u{3000}"] {
        assert_eq!(
            add_footer_end(content),
            format!("{}\n\n<!-- footer_end -->\n", content.trim_end()),
            "{:?}",
            content
        );
    }
}

#[test]
fn footer_start_goes_before_the_first_heading() {
    assert_eq!(add_footer_start("a\n## Footer\nb"), "a\n<!-- footer_start -->\n\n## Footer\nb");
    assert_eq!(
        add_footer_start("## Footer ## Footer"),
        "<!-- footer_start -->\n\n## Footer ## Footer"
    );
    assert_eq!(add_footer_start("no heading"), "no heading");
    assert_eq!(add_footer_start(""), "");
    assert_eq!(add_footer_start("한 ## Footer"), "한 <!-- footer_start -->\n\n## Footer");
}

#[test]
fn find_run_gives_the_first_place() {
    for hay in ["", "a", "abcabc", "aaa", "xabc", "한국어abc"] {
        for needle in ["", "a", "abc", "bc", "aa", "z", "abcabcd"] {
            let want = hay.find(needle).map(|b| hay[..b].chars().count());
            assert_eq!(find_run(&chars_of(hay), &chars_of(needle)), want, "{:?} {:?}", hay, needle);
        }
    }
}

#[test]
fn trim_end_agrees_with_the_standard_library() {
    for s in ["", " ", "a ", " a", " a \n\t", "\u{3000}", "x\u{00A0}"] {
        let got: String = trim_end(&chars_of(s)).iter().collect();
        assert_eq!(got, s.trim_end(), "{:?}", s);
    }
}

#[test]
fn truncate_cuts_by_characters() {
    assert_eq!(truncate("", 0), "");
    assert_eq!(truncate("abc", 3), "abc");
    assert_eq!(truncate("abcd", 3), "abc...");
    assert_eq!(truncate("abcd", 0), "...");
    assert_eq!(truncate("한국어 텍스트", 3), "한국어...");
    assert_eq!(truncate("short", 80), "short");
}
