use vault_tools::audit::{
    breaks_policy, check_orphans, check_policy, check_schema, check_wikilinks, Policy,
};
use vault_tools::{Note, SchemaViolation};

fn note(name: &str, folder: &str, content: &str) -> Note {
    Note::from_parts(
        format!("/v/{}/{}.md", folder, name),
        folder.to_string(),
        name.to_string(),
        content.to_string(),
        0,
        0,
    )
}

fn names(v: &[&str]) -> Vec<String> {
    v.iter().map(|s| s.to_string()).collect()
}

fn vault() -> Vec<Note> {
    vec![
        note(
            "good",
            "Notes",
            "---\ntype: note\nstatus: active\narea: tech\ngist: fine\ntags: [a]\n---\n[[other]] [[nowhere]]",
        ),
        note("bare", "Notes", "no frontmatter, but [[good]] and [[gone|x]]"),
        note(
            "other",
            "Notes",
            "---\ntype: project\nstatus: open\narea: tech\ntags: [A/b]\n---\n",
        ),
    ]
}

#[test]
fn schema_findings_name_their_notes() {
    let found = check_schema(&vault());
    let got: Vec<(String, String)> =
        found.iter().map(|(n, v)| (n.clone(), v.message())).collect();
    let want: Vec<(String, String)> = [
        ("bare", "Missing YAML frontmatter"),
        ("other", "Invalid status 'open' (must be: active|done|archived)"),
        ("other", "Missing required field: gist"),
        ("other", "Hierarchical tag not allowed: A/b"),
        ("other", "Tag must be lowercase: A/b"),
    ]
    .iter()
    .map(|(n, m)| (n.to_string(), m.to_string()))
    .collect();
    assert_eq!(got, want);
    assert!(found[0].1 == SchemaViolation::MissingFrontmatter);
    assert!(check_schema(&Vec::new()).is_empty());
}

#[test]
fn broken_links_name_their_notes() {
    let known = names(&["good", "bare", "other"]);
    let found = check_wikilinks(&vault(), &known);
    assert_eq!(
        found,
        vec![
            ("good".to_string(), "nowhere".to_string()),
            ("bare".to_string(), "gone".to_string()),
        ]
    );
    assert_eq!(check_wikilinks(&vault(), &Vec::new()).len(), 4);
    assert!(check_wikilinks(&Vec::new(), &known).is_empty());
}

#[test]
fn policies_pick_the_notes_that_break_them() {
    let notes = vault();
    assert_eq!(check_policy(&notes, Policy::FolderMatchesType), names(&["other"]));
    assert_eq!(check_policy(&notes, Policy::HasGist), names(&["bare", "other"]));
    assert_eq!(check_policy(&notes, Policy::HasTags), names(&["bare"]));
    assert!(!breaks_policy(Policy::HasGist, &notes[0]));
    assert!(breaks_policy(Policy::HasGist, &notes[1]));
    assert!(breaks_policy(Policy::HasTags, &notes[1]));
    assert!(!breaks_policy(Policy::FolderMatchesType, &notes[1]));
    assert!(check_policy(&Vec::new(), Policy::HasTags).is_empty());
}

#[test]
fn orphans_are_the_names_without_incoming_links() {
    let notes = vault();
    assert_eq!(
        check_orphans(&notes, &names(&["bare", "good", "other", "unseen"])),
        names(&["bare", "unseen"])
    );
    assert_eq!(check_orphans(&Vec::new(), &names(&["b", "a"])), names(&["b", "a"]));
    assert!(check_orphans(&notes, &Vec::new()).is_empty());
}
