use vault_tools::paths::join_path;
use vault_tools::schema::{decimal_string, is_valid_area, is_valid_status, is_valid_type};
use vault_tools::{Frontmatter, Note, SchemaViolation, VaultPaths};

#[test]
fn paths_are_derived_from_the_root() {
    let p = VaultPaths::from_root("/home/me/vault".to_string());
    assert_eq!(p.root, "/home/me/vault");
    assert_eq!(p.notes, "/home/me/vault/Notes");
    assert_eq!(p.projects, "/home/me/vault/Projects");
    assert_eq!(p.archive, "/home/me/vault/Archive");
    assert_eq!(p.system, "/home/me/vault/_system");
    assert_eq!(p.dashboards, "/home/me/vault/_system/Dashboards");
    assert_eq!(p.templates, "/home/me/vault/_system/Templates");
    assert_eq!(p.attachments, "/home/me/vault/_system/Attachments");
    assert_eq!(p.opencode, "/home/me/vault/.opencode");
    assert_eq!(p.inbox, "/home/me/vault/inbox.md");
}

#[test]
fn join_path_agrees_with_the_standard_library() {
    for root in ["", "/", "a", "a/", "/a/b", "/a/b/", ".", "./x"] {
        for child in ["Notes", "_system/Dashboards", "inbox.md"] {
            let want = std::path::Path::new(root).join(child);
            assert_eq!(join_path(root, child), want.to_string_lossy(), "{} {}", root, child);
        }
    }
}

#[test]
fn content_dirs_are_notes_projects_archive() {
    let p = VaultPaths::from_root("v".to_string());
    let dirs = p.content_dirs();
    assert_eq!(dirs, vec!["v/Notes", "v/Projects", "v/Archive"]);
}

#[test]
fn required_folders_are_eight() {
    let p = VaultPaths::from_root("v".to_string());
    let folders = p.required_folders();
    let want = vec![
        ("v/Notes", "All notes (note, term, log)", false),
        ("v/Projects", "Active projects", false),
        ("v/Archive", "Completed projects", false),
        ("v/_system", "System files", true),
        ("v/_system/Dashboards", "Dataview queries", false),
        ("v/_system/Templates", "Note templates", false),
        ("v/_system/Attachments", "Media files", false),
        ("v/.opencode", "AI agent configuration", true),
    ];
    assert_eq!(folders.len(), want.len());
    for (got, want) in folders.iter().zip(want.iter()) {
        assert_eq!(got.0.as_str(), want.0);
        assert_eq!(got.1, want.1);
        assert_eq!(got.2, want.2);
    }
}

#[test]
fn schema_knows_its_values() {
    for t in ["note", "term", "project", "log"] {
        assert!(is_valid_type(t));
    }
    for t in ["", "Note", "notes", "memo"] {
        assert!(!is_valid_type(t));
    }
    for s in ["active", "done", "archived"] {
        assert!(is_valid_status(s));
    }
    assert!(!is_valid_status("Active"));
    for a in ["work", "tech", "life", "career", "learning", "reference"] {
        assert!(is_valid_area(a));
    }
    assert!(!is_valid_area("play"));
}

fn good() -> Frontmatter {
    Frontmatter {
        note_type: Some("note".to_string()),
        status: Some("active".to_string()),
        area: Some("tech".to_string()),
        gist: Some("a gist".to_string()),
        tags: vec!["one".to_string(), "two".to_string()],
        raw: String::new(),
    }
}

fn messages(v: &[SchemaViolation]) -> Vec<String> {
    v.iter().map(|x| x.message()).collect()
}

#[test]
fn a_good_frontmatter_has_no_violations() {
    assert!(good().validate().is_empty());
    let mut five = good();
    five.tags = (0..5).map(|i| format!("t{}", i)).collect();
    assert!(five.validate().is_empty());
    let mut empty_gist = good();
    empty_gist.gist = Some(String::new());
    assert!(empty_gist.validate().is_empty());
}

#[test]
fn an_empty_frontmatter_misses_four_fields() {
    let fm = Frontmatter::default();
    assert_eq!(
        messages(&fm.validate()),
        vec![
            "Missing required field: type",
            "Missing required field: status",
            "Missing required field: area",
            "Missing required field: gist",
        ]
    );
}

#[test]
fn every_violation_is_reported_in_order() {
    let fm = Frontmatter {
        note_type: Some("memo".to_string()),
        status: Some("open".to_string()),
        area: Some("play".to_string()),
        gist: None,
        tags: vec![
            "ok".to_string(),
            "a/b".to_string(),
            "Upper".to_string(),
            "X/Y".to_string(),
            "fine".to_string(),
            "more".to_string(),
        ],
        raw: String::new(),
    };
    let v = fm.validate();
    assert_eq!(
        messages(&v),
        vec![
            "Invalid type 'memo' (must be: note|term|project|log)",
            "Invalid status 'open' (must be: active|done|archived)",
            "Invalid area 'play' (must be: work|tech|life|career|learning|reference)",
            "Missing required field: gist",
            "Too many tags: 6 (max 5)",
            "Hierarchical tag not allowed: a/b",
            "Tag must be lowercase: Upper",
            "Hierarchical tag not allowed: X/Y",
            "Tag must be lowercase: X/Y",
        ]
    );
    assert!(v[0].same(&SchemaViolation::InvalidType("memo".to_string())));
    assert!(!v[0].same(&SchemaViolation::InvalidType("other".to_string())));
    assert!(!v[0].same(&SchemaViolation::InvalidArea("memo".to_string())));
    assert!(v[4].same(&SchemaViolation::TooManyTags(6)));
    assert!(v[4].clone().same(&v[4]));
}

#[test]
fn the_other_violations_have_messages_too() {
    assert_eq!(SchemaViolation::MissingFrontmatter.message(), "Missing YAML frontmatter");
    assert_eq!(SchemaViolation::EmptyGist.message(), "Gist field is empty");
    assert_eq!(SchemaViolation::TooManyTags(0).message(), "Too many tags: 0 (max 5)");
    assert_eq!(SchemaViolation::TooManyTags(1234567890).message(), "Too many tags: 1234567890 (max 5)");
    assert_eq!(decimal_string(0), "0");
    assert_eq!(decimal_string(9), "9");
    assert_eq!(decimal_string(10), "10");
    assert_eq!(decimal_string(u64::MAX), u64::MAX.to_string());
}

fn note_in(folder: &str, note_type: Option<&str>, status: Option<&str>) -> Note {
    Note {
        path: format!("/v/{}/n.md", folder),
        folder: folder.to_string(),
        name: "n".to_string(),
        content: String::new(),
        frontmatter: Some(Frontmatter {
            note_type: note_type.map(|s| s.to_string()),
            status: status.map(|s| s.to_string()),
            area: Some("tech".to_string()),
            gist: Some("g".to_string()),
            tags: vec!["a".to_string()],
            raw: String::new(),
        }),
        modified: 0,
        created: 0,
    }
}

#[test]
fn folder_must_match_type_and_status() {
    assert!(note_in("Archive", Some("project"), Some("archived")).check_folder_type_match());
    assert!(!note_in("Projects", Some("project"), Some("archived")).check_folder_type_match());
    assert!(note_in("Projects", Some("project"), Some("active")).check_folder_type_match());
    assert!(note_in("Projects", Some("project"), None).check_folder_type_match());
    assert!(!note_in("Archive", Some("project"), Some("done")).check_folder_type_match());
    for t in ["note", "term", "log"] {
        assert!(note_in("Notes", Some(t), Some("archived")).check_folder_type_match());
        assert!(!note_in("Projects", Some(t), None).check_folder_type_match());
    }
    assert!(note_in("Anywhere", Some("memo"), None).check_folder_type_match());
    assert!(note_in("Anywhere", None, Some("archived")).check_folder_type_match());
}

#[test]
fn a_note_reads_its_fields_from_the_frontmatter() {
    let n = note_in("Notes", Some("term"), Some("done"));
    assert_eq!(n.folder(), "Notes");
    assert_eq!(n.note_type(), Some("term"));
    assert_eq!(n.status(), Some("done"));
    assert_eq!(n.area(), Some("tech"));
    assert_eq!(n.gist(), Some("g"));
    assert_eq!(n.tags(), vec!["a"]);
    assert!(n.validate_schema().is_empty());

    let mut bare = note_in("Notes", None, None);
    bare.frontmatter = None;
    assert_eq!(bare.note_type(), None);
    assert_eq!(bare.status(), None);
    assert_eq!(bare.area(), None);
    assert_eq!(bare.gist(), None);
    assert!(bare.tags().is_empty());
    let v = bare.validate_schema();
    assert_eq!(v.len(), 1);
    assert!(v[0].same(&SchemaViolation::MissingFrontmatter));
    assert!(bare.check_folder_type_match());
}
