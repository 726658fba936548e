use vault_tools::params::{
    clamp_limit, default_limit, default_list_limit, ListNotesParams, SearchParams,
};
use vault_tools::text::{
    chars_of, contains_run, join, same_text, split_lines, split_on, split_words, starts_with,
    string_of, trim,
};
use vault_tools::wikilink::{precedes, sort_names};
use vault_tools::{analyze_wikilinks, extract_wikilinks, Frontmatter, Note};

fn text(v: &Vec<char>) -> String {
    v.iter().collect()
}

const SAMPLES: [&str; 16] = [
    "",
    "a",
    " a ",
    "\n",
    "a\n",
    "a\nb",
    "a\r\nb\r\n",
    "a\rb\n",
    "\r",
    "a\r",
    "\n\n",
    "  two  words\t",
    "\u{3000}wide\u{00A0}",
    "\"quoted\"",
    "''x''",
    "a,b,,c,",
];

#[test]
fn chars_and_strings_convert_both_ways() {
    for s in SAMPLES.iter().chain(["한국어", "😀 emoji"].iter()) {
        let v = chars_of(s);
        assert_eq!(v, s.chars().collect::<Vec<char>>());
        assert_eq!(string_of(&v, 0, v.len()), *s);
    }
    let v = chars_of("hello");
    assert_eq!(string_of(&v, 1, 3), "el");
    assert_eq!(string_of(&v, 2, 2), "");
    assert!(same_text("x", "x"));
    assert!(!same_text("x", "X"));
    assert!(!same_text("x", "xx"));
}

#[test]
fn split_lines_agrees_with_the_standard_library() {
    for s in SAMPLES {
        let got: Vec<String> = split_lines(&chars_of(s)).iter().map(text).collect();
        let want: Vec<String> = s.lines().map(|l| l.to_string()).collect();
        assert_eq!(got, want, "{:?}", s);
    }
}

#[test]
fn split_on_agrees_with_the_standard_library() {
    for s in SAMPLES {
        for sep in [',', '\n', ' '] {
            let got: Vec<String> = split_on(&chars_of(s), sep).iter().map(text).collect();
            let want: Vec<String> = s.split(sep).map(|l| l.to_string()).collect();
            assert_eq!(got, want, "{:?}", s);
        }
    }
}

#[test]
fn split_words_agrees_with_the_standard_library() {
    for s in SAMPLES {
        let got = split_words(&chars_of(s), false);
        let want: Vec<String> = s.split_whitespace().map(|l| l.to_string()).collect();
        assert_eq!(got, want, "{:?}", s);
        let got = split_words(&chars_of(s), true);
        let want: Vec<String> = s
            .split(|c: char| c.is_whitespace() || c.is_ascii_punctuation())
            .filter(|p| !p.is_empty())
            .map(|l| l.to_string())
            .collect();
        assert_eq!(got, want, "{:?}", s);
    }
    for code in 0u32..128 {
        let c = char::from_u32(code).unwrap();
        let s = format!("a{}b", c);
        let cut = c.is_whitespace() || c.is_ascii_punctuation();
        assert_eq!(split_words(&chars_of(&s), true).len(), if cut { 2 } else { 1 }, "{:?}", c);
    }
}

#[test]
fn trim_agrees_with_the_standard_library() {
    for s in SAMPLES {
        assert_eq!(text(&trim(&chars_of(s), None)), s.trim(), "{:?}", s);
        for c in ['"', '\'', 'a', ' '] {
            assert_eq!(text(&trim(&chars_of(s), Some(c))), s.trim_matches(c), "{:?}", s);
        }
    }
}

#[test]
fn contains_and_starts_with_agree_with_the_standard_library() {
    for hay in SAMPLES {
        for needle in ["", "a", "b", "a\n", "wo", "words\t", "x''", ",,"] {
            assert_eq!(
                contains_run(&chars_of(hay), &chars_of(needle)),
                hay.contains(needle),
                "{:?} {:?}",
                hay,
                needle
            );
            assert_eq!(
                starts_with(&chars_of(hay), &chars_of(needle)),
                hay.starts_with(needle),
                "{:?} {:?}",
                hay,
                needle
            );
        }
    }
}

#[test]
fn join_puts_the_separator_between() {
    let parts: Vec<Vec<char>> = ["a", "", "bc"].iter().map(|s| chars_of(s)).collect();
    assert_eq!(text(&join(&parts, &chars_of(" "))), "a  bc");
    assert_eq!(text(&join(&parts, &chars_of(""))), "abc");
    assert_eq!(text(&join(&parts[..1].to_vec(), &chars_of(", "))), "a");
    assert_eq!(text(&join(&Vec::new(), &chars_of(", "))), "");
}

#[test]
fn names_sort_as_strings_do() {
    let words = ["b", "a", "", "ab", "B", "한", "a", "aa", "é", "z", "😀", "ab "];
    for x in words {
        for y in words {
            assert_eq!(precedes(&chars_of(x), &chars_of(y)), x <= y, "{:?} {:?}", x, y);
        }
    }
    let v: Vec<Vec<char>> = words.iter().map(|s| chars_of(s)).collect();
    let got: Vec<String> = sort_names(&v).iter().map(text).collect();
    let mut want: Vec<String> = words.iter().map(|s| s.to_string()).collect();
    want.sort();
    assert_eq!(got, want);
}

const NOTE: &str = "---\ntype: note\nstatus: active\narea: tech\ngist: \"GPU memory sharing methods\"\ntags: [gpu, \"memory\", 'cuda', ]\n---\n\n# Title\n\nSee [[Other Note]] and [[ Target | shown ]].\n";

#[test]
fn parse_reads_the_fields() {
    let fm = Frontmatter::parse(NOTE).unwrap();
    assert_eq!(fm.note_type.as_deref(), Some("note"));
    assert_eq!(fm.status.as_deref(), Some("active"));
    assert_eq!(fm.area.as_deref(), Some("tech"));
    assert_eq!(fm.gist.as_deref(), Some("GPU memory sharing methods"));
    assert_eq!(fm.tags, vec!["gpu", "memory", "cuda"]);
    assert_eq!(
        fm.raw,
        "type: note\nstatus: active\narea: tech\ngist: \"GPU memory sharing methods\"\ntags: [gpu, \"memory\", 'cuda', ]"
    );
    assert!(fm.validate().is_empty());
}

#[test]
fn parse_needs_the_block_at_the_very_start() {
    assert!(Frontmatter::parse("").is_none());
    assert!(Frontmatter::parse("no frontmatter").is_none());
    assert!(Frontmatter::parse("\n---\ntype: note\n---\n").is_none());
    assert!(Frontmatter::parse("---\ntype: note\n").is_none());
    assert!(Frontmatter::parse("--- \ntype: note\n---\n").is_none());
    let fm = Frontmatter::parse("---\r\ntype: log\r\n---\r\nbody").unwrap();
    assert_eq!(fm.note_type.as_deref(), Some("log"));
    assert_eq!(fm.raw, "type: log");
    let fm = Frontmatter::parse("---\n\n---").unwrap();
    assert_eq!(fm.raw, "");
    assert_eq!(fm.note_type, None);
    assert_eq!(fm.gist, None);
    assert!(fm.tags.is_empty());
    assert_eq!(fm.validate().len(), 4);
}

#[test]
fn parse_takes_the_first_word_of_a_field() {
    let fm = Frontmatter::parse("---\ntype:   project extra\nstatus:done\n area: tech\n---").unwrap();
    assert_eq!(fm.note_type.as_deref(), Some("project"));
    assert_eq!(fm.status.as_deref(), Some("done"));
    assert_eq!(fm.area, None);
    let fm = Frontmatter::parse("---\ntype: 노트\nx\n---").unwrap();
    assert_eq!(fm.note_type.as_deref(), Some("노트"));
}

#[test]
fn gist_is_read_from_its_line_or_folded() {
    assert_eq!(Frontmatter::extract_gist("gist: plain text"), Some("plain text".to_string()));
    assert_eq!(Frontmatter::extract_gist("gist:   'single'  "), Some("single".to_string()));
    assert_eq!(Frontmatter::extract_gist("gist: \"'both'\""), Some("both".to_string()));
    assert_eq!(Frontmatter::extract_gist("gist: \"\""), None);
    assert_eq!(Frontmatter::extract_gist("type: note"), None);
    assert_eq!(Frontmatter::extract_gist(""), None);
    assert_eq!(Frontmatter::extract_gist("gist:"), None);
    assert_eq!(Frontmatter::extract_gist("gist: >"), None);
    assert_eq!(
        Frontmatter::extract_gist("type: note\ngist: >\n  first line\n  second line\nstatus: done"),
        Some("first line second line".to_string())
    );
    assert_eq!(
        Frontmatter::extract_gist("gist: |\n\tkept\n\n  also kept  \nnot: this\n  nor this"),
        Some("kept also kept".to_string())
    );
    assert_eq!(
        Frontmatter::extract_gist("gist: >\r\n  folded\r\n  over two\r\n"),
        Some("folded over two".to_string())
    );
    // Whitespace after `gist:` runs over line ends: the value is taken from
    // the next line that has any.
    assert_eq!(
        Frontmatter::extract_gist("gist:\r\n  next line\r\n  over two\r\n"),
        Some("next line".to_string())
    );
    assert_eq!(Frontmatter::extract_gist("gist:\n\n  \n"), None);
    assert_eq!(Frontmatter::extract_gist("gist: >\nnot indented"), None);
    assert_eq!(Frontmatter::extract_gist("gist: >-\n  text"), Some(">-".to_string()));
    assert_eq!(Frontmatter::extract_gist("gist: |\n  a\n   \n  b"), Some("a  b".to_string()));
}

#[test]
fn tags_are_cut_at_commas_and_unquoted() {
    assert_eq!(Frontmatter::extract_tags("tags: [a, b, c]"), vec!["a", "b", "c"]);
    assert_eq!(Frontmatter::extract_tags("tags:[\"a b\",'c', d ]"), vec!["a b", "c", "d"]);
    assert!(Frontmatter::extract_tags("tags: []").is_empty());
    assert!(Frontmatter::extract_tags("tags: [ , ,, ]").is_empty());
    assert!(Frontmatter::extract_tags("tags: a, b").is_empty());
    assert!(Frontmatter::extract_tags("").is_empty());
    assert_eq!(Frontmatter::extract_tags("x: 1\ntags: [Up/Per]\ny: [z]"), vec!["Up/Per"]);
    assert_eq!(Frontmatter::extract_tags("tags: [a] [b]"), vec!["a"]);
}

#[test]
fn wikilinks_are_found_in_order() {
    assert_eq!(extract_wikilinks(NOTE), vec!["Other Note", "Target"]);
    assert!(extract_wikilinks("").is_empty());
    assert!(extract_wikilinks("[single] [[]] [[|x]] [[a]b]]").is_empty());
    assert_eq!(extract_wikilinks("[[a]][[b|c]] [[a]]"), vec!["a", "b", "a"]);
    assert_eq!(extract_wikilinks("[[ spaced\t]]"), vec!["spaced"]);
    assert_eq!(extract_wikilinks("[[a|]]"), Vec::<String>::new());
    assert_eq!(extract_wikilinks("[[한국어 노트|보기]]"), vec!["한국어 노트"]);
    assert_eq!(extract_wikilinks("[[[x]]]"), vec!["[x"]);
}

#[test]
fn a_note_is_made_of_its_parts() {
    let n = Note::from_parts(
        "/v/Notes/n.md".to_string(),
        "Notes".to_string(),
        "n".to_string(),
        NOTE.to_string(),
        20,
        10,
    );
    assert_eq!(n.path, "/v/Notes/n.md");
    assert_eq!(n.name, "n");
    assert_eq!(n.modified, 20);
    assert_eq!(n.created, 10);
    assert_eq!(n.gist(), Some("GPU memory sharing methods"));
    assert_eq!(n.wikilinks(), vec!["Other Note", "Target"]);
    assert!(n.check_folder_type_match());
    assert!(n.validate_schema().is_empty());
    let plain = Note::from_parts(
        "x".to_string(),
        "".to_string(),
        "x".to_string(),
        "text".to_string(),
        0,
        0,
    );
    assert!(plain.frontmatter.is_none());
    assert_eq!(plain.validate_schema().len(), 1);
}

fn pairs(v: &[(&str, &str)]) -> Vec<(String, String)> {
    v.iter().map(|(a, b)| (a.to_string(), b.to_string())).collect()
}

fn names(v: &[&str]) -> Vec<String> {
    v.iter().map(|s| s.to_string()).collect()
}

#[test]
fn analysis_counts_links_and_finds_orphans() {
    let notes = pairs(&[
        ("a.md", "[[b]] and [[missing]] and [[b|again]]"),
        ("b.md", "nothing here"),
        ("c.md", "[[a]] [[gone]] [[lost]]"),
    ]);
    let report = analyze_wikilinks(&notes, &names(&["zeta", "a", "b", "c", "alpha"]));
    assert_eq!(report.total_links, 6);
    assert_eq!(report.valid_links, 3);
    assert_eq!(report.broken_links, 3);
    assert_eq!(
        report.broken_by_file,
        vec![
            ("a.md".to_string(), names(&["missing"])),
            ("c.md".to_string(), names(&["gone", "lost"])),
        ]
    );
    assert_eq!(report.orphan_notes, names(&["alpha", "c", "zeta"]));
}

#[test]
fn analysis_of_nothing_is_empty() {
    let report = analyze_wikilinks(&Vec::new(), &Vec::new());
    assert_eq!(report.total_links, 0);
    assert_eq!(report.valid_links, 0);
    assert_eq!(report.broken_links, 0);
    assert!(report.broken_by_file.is_empty());
    assert!(report.orphan_notes.is_empty());
    let report = analyze_wikilinks(&Vec::new(), &names(&["b", "a"]));
    assert_eq!(report.orphan_notes, names(&["a", "b"]));
    let d = vault_tools::WikilinkReport::default();
    assert_eq!((d.total_links, d.valid_links, d.broken_links), (0, 0, 0));
}

#[test]
fn analysis_keeps_the_last_entry_of_a_file() {
    let notes = pairs(&[("same.md", "[[x]]"), ("other.md", "[[y]]"), ("same.md", "[[z]] [[w]]")]);
    let report = analyze_wikilinks(&notes, &Vec::new());
    assert_eq!(report.broken_links, 4);
    assert_eq!(
        report.broken_by_file,
        vec![
            ("same.md".to_string(), names(&["z", "w"])),
            ("other.md".to_string(), names(&["y"])),
        ]
    );
}

#[test]
fn limits_are_clamped() {
    assert_eq!(default_limit(), 5);
    assert_eq!(default_list_limit(), 50);
    let search = |limit| SearchParams { query: String::new(), limit }.effective_limit();
    assert_eq!(search(0), 5);
    assert_eq!(search(1), 1);
    assert_eq!(search(7), 7);
    assert_eq!(search(100), 100);
    assert_eq!(search(101), 100);
    assert_eq!(search(usize::MAX), 100);
    let list = |limit| ListNotesParams { note_type: None, area: None, limit }.effective_limit();
    assert_eq!(list(0), 50);
    assert_eq!(list(1), 1);
    assert_eq!(list(500), 500);
    assert_eq!(list(501), 500);
    assert_eq!(clamp_limit(0, 3, 2), 3);
    for requested in 0..200usize {
        let limit = requested.max(1).min(100);
        let want = if limit == 1 && requested == 0 { 5 } else { limit };
        assert_eq!(search(requested), want);
    }
}

#[test]
fn listing_filters_by_type_and_area() {
    let n = Note::from_parts(
        "p".to_string(),
        "Notes".to_string(),
        "n".to_string(),
        "---\ntype: term\narea: work\n---".to_string(),
        0,
        0,
    );
    let bare = Note::from_parts("p".into(), "".into(), "b".into(), "text".into(), 0, 0);
    let ask = |t: Option<&str>, a: Option<&str>| ListNotesParams {
        note_type: t.map(|s| s.to_string()),
        area: a.map(|s| s.to_string()),
        limit: 0,
    };
    assert!(ask(None, None).admits(&n));
    assert!(ask(None, None).admits(&bare));
    assert!(ask(Some("term"), None).admits(&n));
    assert!(!ask(Some("note"), None).admits(&n));
    assert!(ask(Some("term"), Some("work")).admits(&n));
    assert!(!ask(Some("term"), Some("tech")).admits(&n));
    assert!(!ask(Some("term"), None).admits(&bare));
    assert!(!ask(None, Some("work")).admits(&bare));
}
