//! Links between notes, written `[[target]]` or `[[target|shown text]]`.
use vstd::prelude::*;
use vstd::seq_lib::{to_multiset_build, to_multiset_insert};
use crate::pattern::{all_captures, capture_all, option_views};
use crate::record::{clone_strings, option_view};
use crate::text::{char_views, chars_of, slice_of, string_of, string_views, trim, trimmed};
use crate::vectordb::pair_views;

verus! {

/// A link: two opening brackets, the target, optionally a bar and the text
/// to show, two closing brackets.
pub const WIKILINK_PATTERN: &'static str = r"\[\[([^\]|]+)(?:\|[^\]]+)?\]\]";

/// The targets among `found`, each without the whitespace around it.
pub open spec fn targets(found: Seq<Option<Seq<char>>>) -> Seq<Seq<char>>
    decreases found.len(),
{
    if found.len() == 0 {
        Seq::empty()
    } else {
        let rest = targets(found.drop_last());
        match found.last() {
            Some(t) => rest.push(trimmed(t, None)),
            None => rest,
        }
    }
}

/// The targets of the links in `content`, in order of appearance.
pub open spec fn links_of(content: Seq<char>) -> Seq<Seq<char>> {
    targets(all_captures(WIKILINK_PATTERN@, content))
}

/// The targets of the links in `content`, in order of appearance.
pub fn extract_wikilinks(content: &str) -> (out: Vec<String>)
    ensures
        string_views(out@) == links_of(content@),
{
    let found = capture_all(WIKILINK_PATTERN, content);
    let ghost all = option_views(found@);
    let mut out: Vec<String> = Vec::new();
    let mut i: usize = 0;
    proof {
        assert(all.take(0).len() == 0);
        assert(string_views(out@) =~= targets(all.take(0)));
    }
    while i < found.len()
        invariant
            i <= found.len(),
            all == option_views(found@),
            string_views(out@) == targets(all.take(i as int)),
        decreases found.len() - i,
    {
        proof {
            let next = all.take(i + 1);
            assert(next.drop_last() == all.take(i as int));
            assert(next.last() == option_view(found[i as int]));
        }
        match &found[i] {
            Some(t) => {
                let target = trim(&chars_of(t.as_str()), None);
                let s = string_of(&target, 0, target.len());
                proof {
                    assert(target@.subrange(0, target.len() as int) == target@);
                    assert(string_views(out@.push(s)) =~= string_views(out@).push(s@));
                }
                out.push(s);
            },
            None => {},
        }
        i = i + 1;
    }
    assert(all.take(found.len() as int) == all);
    out
}

/// `a` comes no later than `b` in the order of the dictionary, characters
/// compared by their code points.
pub open spec fn lex_le(a: Seq<char>, b: Seq<char>) -> bool
    decreases a.len(),
{
    if a.len() == 0 {
        true
    } else if b.len() == 0 {
        false
    } else if a[0] != b[0] {
        (a[0] as int) < (b[0] as int)
    } else {
        lex_le(a.drop_first(), b.drop_first())
    }
}

/// Each of `v` comes no later than the next.
pub open spec fn in_order(v: Seq<Seq<char>>) -> bool {
    forall|i: int, j: int| 0 <= i <= j < v.len() ==> lex_le(#[trigger] v[i], #[trigger] v[j])
}

/// Those of `links` that are not among `names`, in the order of `links`.
pub open spec fn broken_among(links: Seq<Seq<char>>, names: Seq<Seq<char>>) -> Seq<Seq<char>>
    decreases links.len(),
{
    if links.len() == 0 {
        Seq::empty()
    } else {
        let rest = broken_among(links.drop_last(), names);
        if names.contains(links.last()) {
            rest
        } else {
            rest.push(links.last())
        }
    }
}

/// The links of all `notes`, note after note. A note is a pair of file name
/// and content.
pub open spec fn all_links(notes: Seq<(Seq<char>, Seq<char>)>) -> Seq<Seq<char>>
    decreases notes.len(),
{
    if notes.len() == 0 {
        Seq::empty()
    } else {
        all_links(notes.drop_last()) + links_of(notes.last().1)
    }
}

/// `list` after the broken links of the file `file` were entered: in place
/// of an earlier entry for that file, else at the end.
pub open spec fn broken_entered(
    list: Seq<(Seq<char>, Seq<Seq<char>>)>,
    file: Seq<char>,
    broken: Seq<Seq<char>>,
) -> Seq<(Seq<char>, Seq<Seq<char>>)> {
    if exists|i: int| 0 <= i < list.len() && (#[trigger] list[i]).0 == file {
        list.update(choose|i: int| 0 <= i < list.len() && (#[trigger] list[i]).0 == file, (file, broken))
    } else {
        list.push((file, broken))
    }
}

/// The broken links by file: one entry for each file name under which a
/// note has broken links, holding the broken links of the last such note.
pub open spec fn broken_by_file(
    notes: Seq<(Seq<char>, Seq<char>)>,
    names: Seq<Seq<char>>,
) -> Seq<(Seq<char>, Seq<Seq<char>>)>
    decreases notes.len(),
{
    if notes.len() == 0 {
        Seq::empty()
    } else {
        let rest = broken_by_file(notes.drop_last(), names);
        let broken = broken_among(links_of(notes.last().1), names);
        if broken.len() == 0 {
            rest
        } else {
            broken_entered(rest, notes.last().0, broken)
        }
    }
}

/// Those of `names` that none of `links` points to, in the order of `names`.
pub open spec fn unlinked(names: Seq<Seq<char>>, links: Seq<Seq<char>>) -> Seq<Seq<char>>
    decreases names.len(),
{
    if names.len() == 0 {
        Seq::empty()
    } else {
        let rest = unlinked(names.drop_last(), links);
        if links.contains(names.last()) {
            rest
        } else {
            rest.push(names.last())
        }
    }
}

/// What an analysis of the links between notes finds.
#[derive(Debug)]
pub struct WikilinkReport {
    pub total_links: usize,
    /// Links that point to a known note.
    pub valid_links: usize,
    /// Links that point nowhere.
    pub broken_links: usize,
    /// The broken links of each file that has any. No file name occurs
    /// twice.
    pub broken_by_file: Vec<(String, Vec<String>)>,
    /// The known notes that no link points to, in the order of the
    /// dictionary.
    pub orphan_notes: Vec<String>,
}

impl Default for WikilinkReport {
    fn default() -> (r: Self)
        ensures
            r.total_links == 0,
            r.valid_links == 0,
            r.broken_links == 0,
            r.broken_by_file@.len() == 0,
            r.orphan_notes@.len() == 0,
    {
        WikilinkReport {
            total_links: 0,
            valid_links: 0,
            broken_links: 0,
            broken_by_file: Vec::new(),
            orphan_notes: Vec::new(),
        }
    }
}

/// The views of the entries of broken links by file.
pub open spec fn broken_views(v: Seq<(String, Vec<String>)>) -> Seq<(Seq<char>, Seq<Seq<char>>)> {
    Seq::new(v.len(), |i: int| (v[i].0@, string_views(v[i].1@)))
}

pub proof fn lemma_lex_le_reflexive(a: Seq<char>)
    ensures
        lex_le(a, a),
    decreases a.len(),
{
    if a.len() > 0 {
        lemma_lex_le_reflexive(a.drop_first());
    }
}

pub proof fn lemma_lex_le_total(a: Seq<char>, b: Seq<char>)
    ensures
        lex_le(a, b) || lex_le(b, a),
    decreases a.len(),
{
    if a.len() > 0 && b.len() > 0 && a[0] == b[0] {
        lemma_lex_le_total(a.drop_first(), b.drop_first());
    }
}

pub proof fn lemma_lex_le_transitive(a: Seq<char>, b: Seq<char>, c: Seq<char>)
    requires
        lex_le(a, b),
        lex_le(b, c),
    ensures
        lex_le(a, c),
    decreases a.len(),
{
    if a.len() > 0 && b.len() > 0 && c.len() > 0 && a[0] == b[0] && b[0] == c[0] {
        lemma_lex_le_transitive(a.drop_first(), b.drop_first(), c.drop_first());
    }
}

/// Whether `a` comes no later than `b` in the order of the dictionary.
pub fn precedes(a: &Vec<char>, b: &Vec<char>) -> (r: bool)
    ensures
        r == lex_le(a@, b@),
{
    let mut i: usize = 0;
    assert(a@.skip(0) == a@ && b@.skip(0) == b@);
    while i < a.len() && i < b.len()
        invariant
            i <= a.len(),
            i <= b.len(),
            lex_le(a@, b@) == lex_le(a@.skip(i as int), b@.skip(i as int)),
        decreases a.len() - i,
    {
        let x = a[i];
        let y = b[i];
        proof {
            assert(a@.skip(i as int)[0] == x);
            assert(b@.skip(i as int)[0] == y);
            assert(a@.skip(i as int).drop_first() == a@.skip(i + 1));
            assert(b@.skip(i as int).drop_first() == b@.skip(i + 1));
        }
        if x != y {
            return char_before(x, y);
        }
        i = i + 1;
    }
    i >= a.len()
}

/// Whether the code point of `x` is below that of `y`.
fn char_before(x: char, y: char) -> (r: bool)
    ensures
        r == ((x as int) < (y as int)),
{
    x < y
}

/// Puts `v` in the order of the dictionary.
pub fn sort_names(v: &Vec<Vec<char>>) -> (out: Vec<Vec<char>>)
    ensures
        in_order(char_views(out@)),
        char_views(out@).to_multiset() == char_views(v@).to_multiset(),
{
    let mut out: Vec<Vec<char>> = Vec::new();
    let ghost all = char_views(v@);
    let mut i: usize = 0;
    assert(all.take(0) =~= char_views(out@));
    while i < v.len()
        invariant
            i <= v.len(),
            all == char_views(v@),
            in_order(char_views(out@)),
            char_views(out@).to_multiset() == all.take(i as int).to_multiset(),
        decreases v.len() - i,
    {
        let x = slice_of(&v[i], 0, v[i].len());
        assert(x@ == v[i as int]@) by {
            assert(v[i as int]@.subrange(0, v[i as int]@.len() as int) == v[i as int]@);
        }
        let ghost before = char_views(out@);
        let mut pos: usize = out.len();
        while pos > 0 && !precedes(&out[pos - 1], &x)
            invariant
                pos <= out.len(),
                before == char_views(out@),
                in_order(before),
                forall|q: int| pos <= q < before.len() ==> lex_le(x@, #[trigger] before[q]),
            decreases pos,
        {
            proof {
                assert(before[pos - 1] == out[pos - 1]@);
                lemma_lex_le_total(before[pos - 1], x@);
            }
            pos = pos - 1;
        }
        proof {
            if pos > 0 {
                assert(before[pos - 1] == out[pos - 1]@);
            }
            assert forall|p: int| 0 <= p < pos implies lex_le(#[trigger] before[p], x@) by {
                assert(lex_le(before[p], before[pos - 1]));
                lemma_lex_le_transitive(before[p], before[pos - 1], x@);
            }
        }
        out.insert(pos, x);
        proof {
            let after = char_views(out@);
            assert(after =~= before.insert(pos as int, x@));
            assert forall|a: int, b: int| 0 <= a <= b < after.len() implies lex_le(
                #[trigger] after[a],
                #[trigger] after[b],
            ) by {
                if a == b {
                    lemma_lex_le_reflexive(after[a]);
                } else if b < pos {
                    assert(lex_le(before[a], before[b]));
                } else if b == pos {
                    assert(lex_le(before[a], x@));
                } else if a < pos {
                    assert(lex_le(before[a], before[b - 1]));
                } else if a == pos {
                    assert(lex_le(x@, before[b - 1]));
                } else {
                    assert(lex_le(before[a - 1], before[b - 1]));
                }
            }
            to_multiset_insert(before, pos as int, x@);
            assert(all.take(i + 1) == all.take(i as int).push(x@));
            to_multiset_build(all.take(i as int), x@);
        }
        i = i + 1;
    }
    assert(all.take(v.len() as int) == all);
    out
}

/// Whether `name` is among `names`.
fn is_among(names: &Vec<String>, name: &String) -> (b: bool)
    ensures
        b == string_views(names@).contains(name@),
{
    let mut i: usize = 0;
    while i < names.len()
        invariant
            i <= names.len(),
            forall|j: int| 0 <= j < i ==> string_views(names@)[j] != name@,
        decreases names.len() - i,
    {
        if names[i] == *name {
            assert(string_views(names@)[i as int] == name@);
            return true;
        }
        i = i + 1;
    }
    false
}

/// No file occurs twice in `list`.
pub open spec fn unique_files(list: Seq<(Seq<char>, Seq<Seq<char>>)>) -> bool {
    forall|i: int, j: int| 0 <= i < j < list.len() ==> (#[trigger] list[i]).0 != (#[trigger] list[j]).0
}

/// Enters the broken links of `file` into `list`.
fn enter_broken(list: &mut Vec<(String, Vec<String>)>, file: &String, broken: Vec<String>)
    requires
        unique_files(broken_views(old(list)@)),
    ensures
        unique_files(broken_views(final(list)@)),
        broken_views(final(list)@) == broken_entered(
            broken_views(old(list)@),
            file@,
            string_views(broken@),
        ),
{
    let ghost before = broken_views(list@);
    let ghost entry = (file@, string_views(broken@));
    let mut i: usize = 0;
    while i < list.len()
        invariant
            i <= list.len(),
            before == broken_views(list@),
            before == broken_views(old(list)@),
            entry == (file@, string_views(broken@)),
            unique_files(before),
            forall|j: int| 0 <= j < i ==> (#[trigger] before[j]).0 != file@,
        decreases list.len() - i,
    {
        if list[i].0 == *file {
            proof {
                assert(before[i as int].0 == file@);
                let at = choose|k: int| 0 <= k < before.len() && (#[trigger] before[k]).0 == file@;
                if at < i {
                    assert(before[at].0 != before[i as int].0);
                } else if i < at {
                    assert(before[i as int].0 != before[at].0);
                }
                assert(at == i);
                assert(broken_entered(before, file@, entry.1) == before.update(i as int, entry));
            }
            let item = (file.clone(), broken);
            assert((item.0@, string_views(item.1@)) == entry);
            list[i] = item;
            proof {
                let after = broken_views(list@);
                assert(after[i as int] == entry);
                assert(after =~= before.update(i as int, entry));
                assert forall|a: int, b: int| 0 <= a < b < after.len() implies (#[trigger] after[a]).0
                    != (#[trigger] after[b]).0 by {
                    assert(before[a].0 != before[b].0);
                }
            }
            return ;
        }
        i = i + 1;
    }
    list.push((file.clone(), broken));
    proof {
        let after = broken_views(list@);
        assert(after =~= before.push(entry));
        assert forall|a: int, b: int| 0 <= a < b < after.len() implies (#[trigger] after[a]).0 != (
        #[trigger] after[b]).0 by {
            if b < before.len() {
                assert(before[a].0 != before[b].0);
            } else {
                assert(before[a].0 != file@);
            }
        }
    }
}

/// How the notes of a vault link to each other.
///
/// `notes` are pairs of file name and content; `existing_names` are the
/// names that a link may point to. Every link is counted, and counted as
/// valid if it points to one of the names, else as broken.
pub fn analyze_wikilinks(notes: &Vec<(String, String)>, existing_names: &Vec<String>) -> (report:
    WikilinkReport)
    ensures
        report.total_links == all_links(pair_views(notes@)).len(),
        report.broken_links == broken_among(
            all_links(pair_views(notes@)),
            string_views(existing_names@),
        ).len(),
        report.valid_links == report.total_links - report.broken_links,
        broken_views(report.broken_by_file@) == broken_by_file(
            pair_views(notes@),
            string_views(existing_names@),
        ),
        in_order(string_views(report.orphan_notes@)),
        string_views(report.orphan_notes@).to_multiset() == unlinked(
            string_views(existing_names@),
            all_links(pair_views(notes@)),
        ).to_multiset(),
{
    let ghost all = pair_views(notes@);
    let ghost names = string_views(existing_names@);
    let mut links: Vec<String> = Vec::new();
    let mut broken_count: usize = 0;
    let mut by_file: Vec<(String, Vec<String>)> = Vec::new();
    let mut i: usize = 0;
    proof {
        assert(all.take(0).len() == 0);
        assert(string_views(links@) =~= all_links(all.take(0)));
        assert(broken_views(by_file@) =~= broken_by_file(all.take(0), names));
    }
    while i < notes.len()
        invariant
            i <= notes.len(),
            all == pair_views(notes@),
            names == string_views(existing_names@),
            string_views(links@) == all_links(all.take(i as int)),
            broken_count == broken_among(all_links(all.take(i as int)), names).len(),
            broken_count <= links.len(),
            unique_files(broken_views(by_file@)),
            broken_views(by_file@) == broken_by_file(all.take(i as int), names),
        decreases notes.len() - i,
    {
        let found = extract_wikilinks(notes[i].1.as_str());
        let ghost found_views = string_views(found@);
        let ghost before_links = string_views(links@);
        let mut broken: Vec<String> = Vec::new();
        let mut k: usize = 0;
        let ghost start_len = links.len();
        proof {
            assert(found_views.take(0).len() == 0);
            assert(string_views(broken@) =~= broken_among(found_views.take(0), names));
            assert(before_links + found_views.take(0) == before_links);
        }
        while k < found.len()
            invariant
                k <= found.len(),
                found_views == string_views(found@),
                names == string_views(existing_names@),
                string_views(broken@) == broken_among(found_views.take(k as int), names),
                string_views(links@) == before_links + found_views.take(k as int),
                broken.len() <= k,
                links.len() == start_len + k,
            decreases found.len() - k,
        {
            let link = &found[k];
            proof {
                let next = found_views.take(k + 1);
                assert(next.drop_last() == found_views.take(k as int));
                assert(next.last() == link@);
                assert(before_links + next == (before_links + found_views.take(k as int)).push(
                    link@,
                ));
            }
            if !is_among(existing_names, link) {
                let copy = link.clone();
                assert(string_views(broken@.push(copy)) =~= string_views(broken@).push(copy@));
                broken.push(copy);
            }
            let copy = link.clone();
            assert(string_views(links@.push(copy)) =~= string_views(links@).push(copy@));
            links.push(copy);
            k = k + 1;
        }
        proof {
            assert(found_views.take(found.len() as int) == found_views);
            let next = all.take(i + 1);
            assert(next.drop_last() == all.take(i as int));
            assert(next.last() == (notes[i as int].0@, notes[i as int].1@));
            lemma_broken_among_concat(before_links, found_views, names);
            assert(broken@.len() == string_views(broken@).len());
        }
        broken_count = broken_count + broken.len();
        if broken.len() > 0 {
            enter_broken(&mut by_file, &notes[i].0, broken);
        }
        i = i + 1;
    }
    assert(all.take(notes.len() as int) == all);
    let total = links.len();
    proof {
        assert(string_views(links@).len() == links.len());
    }
    // The known notes that no link points to.
    let mut lonely: Vec<Vec<char>> = Vec::new();
    let mut n: usize = 0;
    proof {
        assert(names.take(0).len() == 0);
        assert(char_views(lonely@) =~= unlinked(names.take(0), string_views(links@)));
    }
    while n < existing_names.len()
        invariant
            n <= existing_names.len(),
            names == string_views(existing_names@),
            char_views(lonely@) == unlinked(names.take(n as int), string_views(links@)),
        decreases existing_names.len() - n,
    {
        let name = &existing_names[n];
        proof {
            let next = names.take(n + 1);
            assert(next.drop_last() == names.take(n as int));
            assert(next.last() == name@);
        }
        if !is_among(&links, name) {
            let chars = chars_of(name.as_str());
            assert(char_views(lonely@.push(chars)) =~= char_views(lonely@).push(chars@));
            lonely.push(chars);
        }
        n = n + 1;
    }
    assert(names.take(existing_names.len() as int) == names);
    let sorted = sort_names(&lonely);
    let mut orphans: Vec<String> = Vec::new();
    let mut j: usize = 0;
    while j < sorted.len()
        invariant
            j <= sorted.len(),
            string_views(orphans@) == char_views(sorted@).take(j as int),
        decreases sorted.len() - j,
    {
        let s = string_of(&sorted[j], 0, sorted[j].len());
        proof {
            assert(sorted[j as int]@.subrange(0, sorted[j as int]@.len() as int) == sorted[j as int]@);
            assert(string_views(orphans@.push(s)) =~= string_views(orphans@).push(s@));
            assert(char_views(sorted@).take(j + 1) =~= char_views(sorted@).take(j as int).push(s@));
        }
        orphans.push(s);
        j = j + 1;
    }
    assert(char_views(sorted@).take(sorted.len() as int) == char_views(sorted@));
    WikilinkReport {
        total_links: total,
        valid_links: total - broken_count,
        broken_links: broken_count,
        broken_by_file: by_file,
        orphan_notes: orphans,
    }
}

/// The broken links of two lists, one after the other, are the broken links
/// of the lists put together.
pub proof fn lemma_broken_among_concat(a: Seq<Seq<char>>, b: Seq<Seq<char>>, names: Seq<Seq<char>>)
    ensures
        broken_among(a + b, names) == broken_among(a, names) + broken_among(b, names),
    decreases b.len(),
{
    if b.len() == 0 {
        assert(a + b == a);
        assert(broken_among(a, names) + broken_among(b, names) == broken_among(a, names));
    } else {
        lemma_broken_among_concat(a, b.drop_last(), names);
        assert((a + b).drop_last() == a + b.drop_last());
        assert((a + b).last() == b.last());
        let x = broken_among(a, names);
        let y = broken_among(b.drop_last(), names);
        if !names.contains(b.last()) {
            assert((x + y).push(b.last()) == x + y.push(b.last()));
        }
    }
}

} // verus!
