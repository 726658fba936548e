//! What an audit of the vault finds: the notes that break a policy, policy
//! by policy.
use vstd::prelude::*;
use crate::note::{note_views, Note, NoteView};
use crate::schema::{violation_views, SchemaViolation, ViolationView};
use crate::text::string_views;
use crate::wikilink::{broken_among, links_of, unlinked};

verus! {

/// The names of those of `notes` that `found` picks, in order.
pub open spec fn names_where(notes: Seq<NoteView>, found: spec_fn(NoteView) -> bool) -> Seq<
    Seq<char>,
>
    decreases notes.len(),
{
    if notes.len() == 0 {
        Seq::empty()
    } else {
        let rest = names_where(notes.drop_last(), found);
        if found(notes.last()) {
            rest.push(notes.last().name)
        } else {
            rest
        }
    }
}

/// What is wrong with the frontmatter of a note.
pub open spec fn note_violations(note: NoteView) -> Seq<ViolationView> {
    match note.frontmatter {
        Some(fm) => crate::frontmatter::violations(fm),
        None => seq![ViolationView::MissingFrontmatter],
    }
}

/// Each of `items` paired with `name`.
pub open spec fn named<T>(name: Seq<char>, items: Seq<T>) -> Seq<(Seq<char>, T)> {
    Seq::new(items.len(), |i: int| (name, items[i]))
}

/// Every schema violation of every note, each with the name of its note.
pub open spec fn schema_findings(notes: Seq<NoteView>) -> Seq<(Seq<char>, ViolationView)>
    decreases notes.len(),
{
    if notes.len() == 0 {
        Seq::empty()
    } else {
        schema_findings(notes.drop_last()) + named(notes.last().name, note_violations(notes.last()))
    }
}

/// Every link that points to none of `names`, each with the name of the
/// note that holds it.
pub open spec fn broken_link_findings(notes: Seq<NoteView>, names: Seq<Seq<char>>) -> Seq<
    (Seq<char>, Seq<char>),
>
    decreases notes.len(),
{
    if notes.len() == 0 {
        Seq::empty()
    } else {
        broken_link_findings(notes.drop_last(), names) + named(
            notes.last().name,
            broken_among(links_of(notes.last().content), names),
        )
    }
}

/// The links of all `notes`, note after note.
pub open spec fn links_in(notes: Seq<NoteView>) -> Seq<Seq<char>>
    decreases notes.len(),
{
    if notes.len() == 0 {
        Seq::empty()
    } else {
        links_in(notes.drop_last()) + links_of(notes.last().content)
    }
}

/// The views of findings that pair a note with a violation.
pub open spec fn finding_views(v: Seq<(String, SchemaViolation)>) -> Seq<(Seq<char>, ViolationView)> {
    Seq::new(v.len(), |i: int| (v[i].0@, v[i].1@))
}

/// The schema violations of all notes, each with the name of its note. The
/// schema is kept where there are none.
pub fn check_schema(notes: &Vec<Note>) -> (out: Vec<(String, SchemaViolation)>)
    ensures
        finding_views(out@) == schema_findings(note_views(notes@)),
{
    let mut out: Vec<(String, SchemaViolation)> = Vec::new();
    let ghost all = note_views(notes@);
    let mut i: usize = 0;
    proof {
        assert(all.take(0).len() == 0);
        assert(finding_views(out@) =~= schema_findings(all.take(0)));
    }
    while i < notes.len()
        invariant
            i <= notes.len(),
            all == note_views(notes@),
            finding_views(out@) == schema_findings(all.take(i as int)),
        decreases notes.len() - i,
    {
        let found = notes[i].validate_schema();
        let ghost before = finding_views(out@);
        let ghost items = violation_views(found@);
        let ghost name = notes[i as int]@.name;
        proof {
            let next = all.take(i + 1);
            assert(next.drop_last() == all.take(i as int));
            assert(next.last() == notes[i as int]@);
            assert(items == note_violations(notes[i as int]@));
            assert(before + named(name, items.take(0)) =~= before);
        }
        let mut k: usize = 0;
        while k < found.len()
            invariant
                k <= found.len(),
                i < notes.len(),
                items == violation_views(found@),
                name == notes[i as int]@.name,
                finding_views(out@) == before + named(name, items.take(k as int)),
            decreases found.len() - k,
        {
            let pair = (notes[i].name.clone(), found[k].clone());
            proof {
                assert(items[k as int] == found[k as int]@);
                assert(finding_views(out@.push(pair)) =~= finding_views(out@).push((pair.0@, pair.1@)));
                assert((before + named(name, items.take(k as int))).push((name, items[k as int]))
                    =~= before + named(name, items.take(k + 1)));
            }
            out.push(pair);
            k = k + 1;
        }
        proof {
            assert(items.take(found.len() as int) == items);
        }
        i = i + 1;
    }
    assert(all.take(notes.len() as int) == all);
    out
}

/// The views of findings that pair a note with a link.
pub open spec fn link_views(v: Seq<(String, String)>) -> Seq<(Seq<char>, Seq<char>)> {
    Seq::new(v.len(), |i: int| (v[i].0@, v[i].1@))
}

/// Whether `name` is among `names`.
fn known(names: &Vec<String>, name: &String) -> (b: bool)
    ensures
        b == string_views(names@).contains(name@),
{
    let mut i: usize = 0;
    while i < names.len()
        invariant
            i <= names.len(),
            forall|j: int| 0 <= j < i ==> string_views(names@)[j] != name@,
        decreases names.len() - i,
    {
        if names[i] == *name {
            assert(string_views(names@)[i as int] == name@);
            return true;
        }
        i = i + 1;
    }
    false
}

/// The links that point to none of `names`, each with the name of the note
/// that holds it. The links are whole where there are none.
pub fn check_wikilinks(notes: &Vec<Note>, names: &Vec<String>) -> (out: Vec<(String, String)>)
    ensures
        link_views(out@) == broken_link_findings(note_views(notes@), string_views(names@)),
{
    let mut out: Vec<(String, String)> = Vec::new();
    let ghost all = note_views(notes@);
    let ghost known_names = string_views(names@);
    let mut i: usize = 0;
    proof {
        assert(all.take(0).len() == 0);
        assert(link_views(out@) =~= broken_link_findings(all.take(0), known_names));
    }
    while i < notes.len()
        invariant
            i <= notes.len(),
            all == note_views(notes@),
            known_names == string_views(names@),
            link_views(out@) == broken_link_findings(all.take(i as int), known_names),
        decreases notes.len() - i,
    {
        let links = notes[i].wikilinks();
        let ghost before = link_views(out@);
        let ghost items = string_views(links@);
        let ghost name = notes[i as int]@.name;
        proof {
            let next = all.take(i + 1);
            assert(next.drop_last() == all.take(i as int));
            assert(next.last() == notes[i as int]@);
            assert(items.take(0).len() == 0);
            assert(before + named(name, broken_among(items.take(0), known_names)) =~= before);
        }
        let mut k: usize = 0;
        while k < links.len()
            invariant
                k <= links.len(),
                items == string_views(links@),
                known_names == string_views(names@),
                name == notes[i as int]@.name,
                i < notes.len(),
                link_views(out@) == before + named(
                    name,
                    broken_among(items.take(k as int), known_names),
                ),
            decreases links.len() - k,
        {
            proof {
                let next = items.take(k + 1);
                assert(next.drop_last() == items.take(k as int));
                assert(next.last() == links[k as int]@);
            }
            if !known(names, &links[k]) {
                let pair = (notes[i].name.clone(), links[k].clone());
                proof {
                    let sofar = broken_among(items.take(k as int), known_names);
                    assert(link_views(out@.push(pair)) =~= link_views(out@).push((pair.0@, pair.1@)));
                    assert((before + named(name, sofar)).push((name, links[k as int]@)) =~= before
                        + named(name, sofar.push(links[k as int]@)));
                }
                out.push(pair);
            }
            k = k + 1;
        }
        proof {
            assert(items.take(links.len() as int) == items);
        }
        i = i + 1;
    }
    assert(all.take(notes.len() as int) == all);
    out
}

/// Which policy a check is about.
#[derive(Debug, Clone, Copy, PartialEq, Eq, Structural)]
pub enum Policy {
    /// A note lies in the folder that its type and status ask for.
    FolderMatchesType,
    /// A note has a summary.
    HasGist,
    /// A note has at least one tag.
    HasTags,
}

/// Whether `note` breaks `policy`.
pub open spec fn breaks(policy: Policy, note: NoteView) -> bool {
    match policy {
        Policy::FolderMatchesType => !note.folder_matches_type(),
        Policy::HasGist => note.gist() is None,
        Policy::HasTags => note.tags().len() == 0,
    }
}

/// Whether `note` breaks `policy`.
pub fn breaks_policy(policy: Policy, note: &Note) -> (b: bool)
    ensures
        b == breaks(policy, note@),
{
    match policy {
        Policy::FolderMatchesType => !note.check_folder_type_match(),
        Policy::HasGist => note.gist().is_none(),
        Policy::HasTags => {
            let tags = note.tags();
            assert(string_views(tags@).len() == tags.len());
            tags.len() == 0
        },
    }
}

/// The names of the notes that break `policy`, in the order of `notes`.
pub fn check_policy(notes: &Vec<Note>, policy: Policy) -> (out: Vec<String>)
    ensures
        string_views(out@) == names_where(note_views(notes@), |n: NoteView| breaks(policy, n)),
{
    let mut out: Vec<String> = Vec::new();
    let ghost all = note_views(notes@);
    let ghost found = |n: NoteView| breaks(policy, n);
    let mut i: usize = 0;
    proof {
        assert(all.take(0).len() == 0);
        assert(string_views(out@) =~= names_where(all.take(0), found));
    }
    while i < notes.len()
        invariant
            i <= notes.len(),
            all == note_views(notes@),
            found == (|n: NoteView| breaks(policy, n)),
            string_views(out@) == names_where(all.take(i as int), found),
        decreases notes.len() - i,
    {
        proof {
            let next = all.take(i + 1);
            assert(next.drop_last() == all.take(i as int));
            assert(next.last() == notes[i as int]@);
            assert(found(notes[i as int]@) == breaks(policy, notes[i as int]@));
        }
        if breaks_policy(policy, &notes[i]) {
            let name = notes[i].name.clone();
            assert(string_views(out@.push(name)) =~= string_views(out@).push(name@));
            out.push(name);
        }
        i = i + 1;
    }
    assert(all.take(notes.len() as int) == all);
    out
}

/// Those of `names` that no link of any note points to, in the order of
/// `names`.
pub fn check_orphans(notes: &Vec<Note>, names: &Vec<String>) -> (out: Vec<String>)
    ensures
        string_views(out@) == unlinked(string_views(names@), links_in(note_views(notes@))),
{
    let ghost all = note_views(notes@);
    let mut links: Vec<String> = Vec::new();
    let mut i: usize = 0;
    proof {
        assert(all.take(0).len() == 0);
        assert(string_views(links@) =~= links_in(all.take(0)));
    }
    while i < notes.len()
        invariant
            i <= notes.len(),
            all == note_views(notes@),
            string_views(links@) == links_in(all.take(i as int)),
        decreases notes.len() - i,
    {
        let mut found = notes[i].wikilinks();
        proof {
            let next = all.take(i + 1);
            assert(next.drop_last() == all.take(i as int));
            assert(next.last() == notes[i as int]@);
        }
        let ghost before = string_views(links@);
        let ghost more = string_views(found@);
        links.append(&mut found);
        proof {
            assert(string_views(links@) =~= before + more);
        }
        i = i + 1;
    }
    assert(all.take(notes.len() as int) == all);
    let mut out: Vec<String> = Vec::new();
    let ghost known_names = string_views(names@);
    let mut n: usize = 0;
    proof {
        assert(known_names.take(0).len() == 0);
        assert(string_views(out@) =~= unlinked(known_names.take(0), string_views(links@)));
    }
    while n < names.len()
        invariant
            n <= names.len(),
            known_names == string_views(names@),
            string_views(out@) == unlinked(known_names.take(n as int), string_views(links@)),
        decreases names.len() - n,
    {
        proof {
            let next = known_names.take(n + 1);
            assert(next.drop_last() == known_names.take(n as int));
            assert(next.last() == names[n as int]@);
        }
        if !known(&links, &names[n]) {
            let name = names[n].clone();
            assert(string_views(out@.push(name)) =~= string_views(out@).push(name@));
            out.push(name);
        }
        n = n + 1;
    }
    assert(known_names.take(names.len() as int) == known_names);
    out
}

} // verus!
