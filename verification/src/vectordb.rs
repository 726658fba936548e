//! The vector store: records and their embeddings, keyed by identifier.
//!
//! The store is an ordered list of entries in which no identifier occurs
//! twice. A new identifier is added at the end; a known one is replaced
//! where it stands; a deleted one leaves the order of the others as it was.
//! Beside the entries the store holds free-form metadata, one value for
//! each key.
use vstd::prelude::*;
use vstd::slice::slice_to_vec;
use vstd::string::StringExecFns;
use crate::ranking::{
    is_ranking, lemma_ranking_exists, lemma_ranking_sorted, lemma_ranking_unique, rank, score_key,
    score_rank,
};
use crate::record::{NoteRecord, NoteRecordView};

verus! {

/// A record, its embedding as bit patterns, and when it was written.
pub struct StoreEntry {
    pub record: NoteRecord,
    pub embedding: Vec<u32>,
    pub indexed_at: i64,
}

/// An entry as plain values.
pub struct EntryView {
    pub record: NoteRecordView,
    pub embedding: Seq<u32>,
    pub indexed_at: i64,
}

impl View for StoreEntry {
    type V = EntryView;

    open spec fn view(&self) -> EntryView {
        EntryView { record: self.record@, embedding: self.embedding@, indexed_at: self.indexed_at }
    }
}

/// The views of the entries in `v`.
pub open spec fn entry_views(v: Seq<StoreEntry>) -> Seq<EntryView> {
    Seq::new(v.len(), |i: int| v[i]@)
}

/// The views of the pairs in `v`.
pub open spec fn pair_views(v: Seq<(String, String)>) -> Seq<(Seq<char>, Seq<char>)> {
    Seq::new(v.len(), |i: int| (v[i].0@, v[i].1@))
}

/// Whether an entry of `entries` has the identifier `id`.
pub open spec fn has_id(entries: Seq<EntryView>, id: Seq<char>) -> bool {
    exists|i: int| 0 <= i < entries.len() && #[trigger] entries[i].record.id == id
}

/// Where the entry with the identifier `id` stands, if there is one.
pub open spec fn slot_of(entries: Seq<EntryView>, id: Seq<char>) -> int {
    choose|i: int| 0 <= i < entries.len() && #[trigger] entries[i].record.id == id
}

/// No identifier occurs twice.
pub open spec fn unique_ids(entries: Seq<EntryView>) -> bool {
    forall|i: int, j: int|
        0 <= i < j < entries.len() ==> #[trigger] entries[i].record.id != #[trigger] entries[j].record.id
}

/// The entry with the identifier `id`.
pub open spec fn lookup(entries: Seq<EntryView>, id: Seq<char>) -> Option<EntryView> {
    if has_id(entries, id) {
        Some(entries[slot_of(entries, id)])
    } else {
        None
    }
}

/// `entries` after `entry` was written: in the place of the entry with the
/// same identifier, or at the end if there was none.
pub open spec fn upserted(entries: Seq<EntryView>, entry: EntryView) -> Seq<EntryView> {
    if has_id(entries, entry.record.id) {
        entries.update(slot_of(entries, entry.record.id), entry)
    } else {
        entries.push(entry)
    }
}

/// `entries` without the entry that has the identifier `id`.
pub open spec fn deleted(entries: Seq<EntryView>, id: Seq<char>) -> Seq<EntryView> {
    if has_id(entries, id) {
        entries.remove(slot_of(entries, id))
    } else {
        entries
    }
}

/// Whether `meta` has a value for `key`.
pub open spec fn has_key(meta: Seq<(Seq<char>, Seq<char>)>, key: Seq<char>) -> bool {
    exists|i: int| 0 <= i < meta.len() && (#[trigger] meta[i]).0 == key
}

/// Where the value for `key` stands, if there is one.
pub open spec fn key_slot(meta: Seq<(Seq<char>, Seq<char>)>, key: Seq<char>) -> int {
    choose|i: int| 0 <= i < meta.len() && (#[trigger] meta[i]).0 == key
}

/// No key occurs twice.
pub open spec fn unique_keys(meta: Seq<(Seq<char>, Seq<char>)>) -> bool {
    forall|i: int, j: int| 0 <= i < j < meta.len() ==> (#[trigger] meta[i]).0 != (#[trigger] meta[j]).0
}

/// The value for `key`.
pub open spec fn meta_value(meta: Seq<(Seq<char>, Seq<char>)>, key: Seq<char>) -> Option<Seq<char>> {
    if has_key(meta, key) {
        Some(meta[key_slot(meta, key)].1)
    } else {
        None
    }
}

/// `meta` after `value` was written for `key`: the last write wins.
pub open spec fn meta_written(
    meta: Seq<(Seq<char>, Seq<char>)>,
    key: Seq<char>,
    value: Seq<char>,
) -> Seq<(Seq<char>, Seq<char>)> {
    if has_key(meta, key) {
        meta.update(key_slot(meta, key), (key, value))
    } else {
        meta.push((key, value))
    }
}

/// What a store holds.
pub struct StoreView {
    pub entries: Seq<EntryView>,
    pub meta: Seq<(Seq<char>, Seq<char>)>,
}

impl StoreView {
    /// No identifier and no metadata key occurs twice.
    pub open spec fn well_formed(self) -> bool {
        unique_ids(self.entries) && unique_keys(self.meta)
    }
}

/// In a list without repeated identifiers, an entry stands at its slot.
pub proof fn lemma_slot(entries: Seq<EntryView>, i: int)
    requires
        unique_ids(entries),
        0 <= i < entries.len(),
    ensures
        has_id(entries, entries[i].record.id),
        slot_of(entries, entries[i].record.id) == i,
{
    let id = entries[i].record.id;
    let s = slot_of(entries, id);
    if s < i {
        assert(entries[s].record.id != entries[i].record.id);
    } else if i < s {
        assert(entries[i].record.id != entries[s].record.id);
    }
}

/// In a list without repeated keys, a pair stands at the slot of its key.
pub proof fn lemma_key_slot(meta: Seq<(Seq<char>, Seq<char>)>, i: int)
    requires
        unique_keys(meta),
        0 <= i < meta.len(),
    ensures
        has_key(meta, meta[i].0),
        key_slot(meta, meta[i].0) == i,
{
    let key = meta[i].0;
    let s = key_slot(meta, key);
    if s < i {
        assert(meta[s].0 != meta[i].0);
    } else if i < s {
        assert(meta[i].0 != meta[s].0);
    }
}

/// After a write, the written identifier is held once, by the written
/// entry; every other identifier is looked up as before.
pub proof fn lemma_upsert_lookup(entries: Seq<EntryView>, entry: EntryView)
    requires
        unique_ids(entries),
    ensures
        unique_ids(upserted(entries, entry)),
        lookup(upserted(entries, entry), entry.record.id) == Some(entry),
        forall|other: Seq<char>|
            other != entry.record.id ==> #[trigger] lookup(upserted(entries, entry), other) == lookup(
                entries,
                other,
            ),
        upserted(entries, entry).len() == if has_id(entries, entry.record.id) {
            entries.len()
        } else {
            entries.len() + 1
        },
{
    let id = entry.record.id;
    let after = upserted(entries, entry);
    let at = if has_id(entries, id) {
        slot_of(entries, id)
    } else {
        entries.len() as int
    };
    assert(after[at] == entry);
    assert forall|i: int, j: int| 0 <= i < j < after.len() implies (#[trigger] after[i]).record.id != (
    #[trigger] after[j]).record.id by {
        if i != at && j != at {
            assert(after[i] == entries[i] && after[j] == entries[j]);
        } else if i == at {
            assert(after[j] == entries[j]);
            if has_id(entries, id) {
                assert(entries[at].record.id != entries[j].record.id);
            }
        } else {
            assert(after[i] == entries[i]);
            if has_id(entries, id) {
                assert(entries[i].record.id != entries[at].record.id);
            }
        }
    }
    lemma_slot(after, at);
    assert forall|other: Seq<char>| other != id implies #[trigger] lookup(after, other) == lookup(
        entries,
        other,
    ) by {
        if has_id(entries, other) {
            let i = slot_of(entries, other);
            assert(after[i] == entries[i]);
            lemma_slot(after, i);
        } else if has_id(after, other) {
            let i = slot_of(after, other);
            assert(after[i] == entries[i]);
        }
    }
}

/// After a delete, the deleted identifier is gone; every other identifier is
/// looked up as before.
pub proof fn lemma_delete_lookup(entries: Seq<EntryView>, id: Seq<char>)
    requires
        unique_ids(entries),
    ensures
        unique_ids(deleted(entries, id)),
        lookup(deleted(entries, id), id) is None,
        forall|other: Seq<char>|
            other != id ==> #[trigger] lookup(deleted(entries, id), other) == lookup(entries, other),
        deleted(entries, id).len() == if has_id(entries, id) {
            entries.len() - 1
        } else {
            entries.len() as int
        },
{
    let after = deleted(entries, id);
    if has_id(entries, id) {
        let at = slot_of(entries, id);
        assert forall|i: int| 0 <= i < after.len() implies #[trigger] after[i] == entries[if i < at {
            i
        } else {
            i + 1
        }] by {}
        assert forall|i: int, j: int| 0 <= i < j < after.len() implies (#[trigger] after[i]).record.id
            != (#[trigger] after[j]).record.id by {
            let ii = if i < at { i } else { i + 1 };
            let jj = if j < at { j } else { j + 1 };
            assert(entries[ii].record.id != entries[jj].record.id);
        }
        if has_id(after, id) {
            let i = slot_of(after, id);
            let ii = if i < at { i } else { i + 1 };
            assert(after[i] == entries[ii]);
            if ii < at {
                assert(entries[ii].record.id != entries[at].record.id);
            } else {
                assert(entries[at].record.id != entries[ii].record.id);
            }
        }
        assert forall|other: Seq<char>| other != id implies #[trigger] lookup(after, other) == lookup(
            entries,
            other,
        ) by {
            if has_id(entries, other) {
                let i = slot_of(entries, other);
                let k = if i < at { i } else { i - 1 };
                assert(after[k] == entries[i]);
                lemma_slot(after, k);
            } else if has_id(after, other) {
                let k = slot_of(after, other);
                let i = if k < at { k } else { k + 1 };
                assert(after[k] == entries[i]);
            }
        }
    }
}

/// Writing twice under one identifier leaves what the second write alone
/// would leave: one entry with that identifier, holding the second record
/// and embedding.
pub proof fn lemma_upsert_twice(entries: Seq<EntryView>, first: EntryView, second: EntryView)
    requires
        unique_ids(entries),
        first.record.id == second.record.id,
    ensures
        upserted(upserted(entries, first), second) == upserted(entries, second),
        unique_ids(upserted(upserted(entries, first), second)),
        lookup(upserted(upserted(entries, first), second), second.record.id) == Some(second),
{
    let id = first.record.id;
    let once = upserted(entries, first);
    lemma_upsert_lookup(entries, first);
    lemma_upsert_lookup(once, second);
    lemma_upsert_lookup(entries, second);
    let at = if has_id(entries, id) {
        slot_of(entries, id)
    } else {
        entries.len() as int
    };
    assert(once[at] == first);
    lemma_slot(once, at);
    assert(upserted(once, second) =~= upserted(entries, second));
}

/// After a write and a delete of the same identifier, the identifier is not
/// found; if it was new, the store holds what it held before the write.
pub proof fn lemma_upsert_then_delete(entries: Seq<EntryView>, entry: EntryView)
    requires
        unique_ids(entries),
    ensures
        lookup(deleted(upserted(entries, entry), entry.record.id), entry.record.id) is None,
        !has_id(entries, entry.record.id) ==> deleted(upserted(entries, entry), entry.record.id)
            == entries,
{
    let id = entry.record.id;
    let once = upserted(entries, entry);
    lemma_upsert_lookup(entries, entry);
    lemma_delete_lookup(once, id);
    if !has_id(entries, id) {
        assert(once[entries.len() as int] == entry);
        lemma_slot(once, entries.len() as int);
        assert(deleted(once, id) =~= entries);
    }
}

/// Counts of what the store holds, and the time of the latest write.
#[derive(Debug)]
pub struct IndexStats {
    pub note_count: usize,
    pub embedding_count: usize,
    pub last_indexed: Option<i64>,
}

/// The latest of the times at which the entries were written.
pub open spec fn latest_write(entries: Seq<EntryView>) -> Option<i64>
    decreases entries.len(),
{
    if entries.len() == 0 {
        None
    } else {
        let last = entries.last().indexed_at;
        match latest_write(entries.drop_last()) {
            Some(t) => Some(if t >= last { t } else { last }),
            None => Some(last),
        }
    }
}

/// The keys by which `scores` are ranked.
pub open spec fn score_keys(scores: Seq<u32>) -> Seq<i128> {
    Seq::new(scores.len(), |i: int| score_key(scores[i]) as i128)
}

/// The ranking of `keys`, cut off after `limit` positions. There is exactly
/// one (see `lemma_ranking_unique`).
pub open spec fn ranking_of(keys: Seq<i128>, limit: int) -> Seq<usize> {
    choose|order: Seq<usize>| is_ranking(keys, limit, order)
}

/// The records of `entries` with their scores, best score first and cut off
/// after `limit`; entries with equal scores stay in the order of the store.
/// A list of scores that does not match the entries one for one ranks
/// nothing.
pub open spec fn ranked_hits(entries: Seq<EntryView>, scores: Seq<u32>, limit: int) -> Seq<
    (NoteRecordView, u32),
> {
    if scores.len() != entries.len() {
        Seq::empty()
    } else {
        let order = ranking_of(score_keys(scores), limit);
        Seq::new(order.len(), |p: int| (entries[order[p] as int].record, scores[order[p] as int]))
    }
}

/// The views of the hits in `v`.
pub open spec fn hit_views(v: Seq<(NoteRecord, u32)>) -> Seq<(NoteRecordView, u32)> {
    Seq::new(v.len(), |i: int| (v[i].0@, v[i].1))
}

/// The views of the pairs of identifier and modification time in `v`.
pub open spec fn mtime_views(v: Seq<(String, i64)>) -> Seq<(Seq<char>, i64)> {
    Seq::new(v.len(), |i: int| (v[i].0@, v[i].1))
}

/// `score` is an answer of `similarity` to the question how alike `query`
/// and `stored` are.
pub open spec fn scored<S: Fn(&[u32], &[u32]) -> u32>(
    similarity: &S,
    query: Seq<u32>,
    stored: Seq<u32>,
    score: u32,
) -> bool {
    exists|a: &[u32], b: &[u32]|
        a@ == query && b@ == stored && #[trigger] call_ensures(*similarity, (a, b), score)
}

/// `similarity` can be asked about any two vectors.
pub open spec fn similarity_ready<S: Fn(&[u32], &[u32]) -> u32>(similarity: &S) -> bool {
    forall|a: &[u32], b: &[u32]| call_requires(*similarity, (a, b))
}

/// `scores` holds, for each entry in turn, an answer of `similarity` about
/// `query` and the entry's embedding.
pub open spec fn scores_match<S: Fn(&[u32], &[u32]) -> u32>(
    similarity: &S,
    query: Seq<u32>,
    entries: Seq<EntryView>,
    scores: Seq<u32>,
) -> bool {
    &&& scores.len() == entries.len()
    &&& forall|i: int|
        0 <= i < entries.len() ==> scored(similarity, query, entries[i].embedding, #[trigger] scores[i])
}

/// `hit` is the record of an entry together with the score of that entry.
pub open spec fn stored_with_score(
    entries: Seq<EntryView>,
    scores: Seq<u32>,
    hit: (NoteRecordView, u32),
) -> bool {
    exists|i: int|
        0 <= i < entries.len() && (#[trigger] entries[i]).record == hit.0 && scores[i] == hit.1
}

/// A search returns no more entries than the limit and no more than the
/// store holds; as many as the smaller of the two; each with the score it
/// was given; and in an order in which scores never increase.
pub proof fn lemma_search_ordered(entries: Seq<EntryView>, scores: Seq<u32>, limit: int)
    requires
        0 <= limit,
        scores.len() == entries.len(),
        entries.len() <= usize::MAX,
    ensures
        ranked_hits(entries, scores, limit).len() <= limit,
        ranked_hits(entries, scores, limit).len() <= entries.len(),
        ranked_hits(entries, scores, limit).len() == limit || ranked_hits(
            entries,
            scores,
            limit,
        ).len() == entries.len(),
        is_ranking(score_keys(scores), limit, ranking_of(score_keys(scores), limit)),
        forall|p: int, q: int|
            0 <= p <= q < ranked_hits(entries, scores, limit).len() ==> score_key(
                (#[trigger] ranked_hits(entries, scores, limit)[p]).1,
            ) >= score_key((#[trigger] ranked_hits(entries, scores, limit)[q]).1),
        forall|p: int|
            0 <= p < ranked_hits(entries, scores, limit).len() ==> stored_with_score(
                entries,
                scores,
                #[trigger] ranked_hits(entries, scores, limit)[p],
            ),
{
    let keys = score_keys(scores);
    let witness = lemma_ranking_exists(keys, keys.len() as int, limit);
    let order = ranking_of(keys, limit);
    assert(is_ranking(keys, limit, witness));
    lemma_ranking_sorted(keys, limit, order);
    let hits = ranked_hits(entries, scores, limit);
    assert forall|p: int, q: int| 0 <= p <= q < hits.len() implies score_key((#[trigger] hits[p]).1)
        >= score_key((#[trigger] hits[q]).1) by {
        assert(keys[order[p] as int] >= keys[order[q] as int]);
    }
    assert forall|p: int| 0 <= p < hits.len() implies stored_with_score(
        entries,
        scores,
        #[trigger] hits[p],
    ) by {
        let i = order[p] as int;
        assert(entries[i].record == hits[p].0 && scores[i] == hits[p].1);
    }
}

/// The store.
pub struct VectorDB {
    entries: Vec<StoreEntry>,
    meta: Vec<(String, String)>,
}

impl View for VectorDB {
    type V = StoreView;

    closed spec fn view(&self) -> StoreView {
        StoreView { entries: entry_views(self.entries@), meta: pair_views(self.meta@) }
    }
}

impl VectorDB {
    /// The store is valid: no identifier and no metadata key occurs twice.
    /// Every store that this module hands out is valid and stays so.
    pub open spec fn wf(&self) -> bool {
        self@.well_formed()
    }

    /// An empty store that lives in memory.
    pub fn open_in_memory() -> (db: Self)
        ensures
            db.wf(),
            db@.entries.len() == 0,
            db@.meta.len() == 0,
    {
        VectorDB { entries: Vec::new(), meta: Vec::new() }
    }

    /// Writes `note` and `embedding` under the note's identifier: a known
    /// identifier has both replaced, a new one is added at the end. `now` is
    /// recorded as the time of writing.
    pub fn upsert_note(&mut self, note: &NoteRecord, embedding: &[u32], now: i64)
        requires
            old(self).wf(),
        ensures
            final(self)@.entries == upserted(
                old(self)@.entries,
                EntryView { record: note@, embedding: embedding@, indexed_at: now },
            ),
            final(self)@.meta == old(self)@.meta,
            final(self).wf(),
    {
        let entry = StoreEntry {
            record: note.clone(),
            embedding: slice_to_vec(embedding),
            indexed_at: now,
        };
        self.put(entry);
    }

    /// Writes `entry` under the identifier of its record.
    pub fn put(&mut self, entry: StoreEntry)
        requires
            old(self).wf(),
        ensures
            final(self)@.entries == upserted(old(self)@.entries, entry@),
            final(self)@.meta == old(self)@.meta,
            final(self).wf(),
    {
        let ghost before = self@.entries;
        let ghost written = entry@;
        match self.find(&entry.record.id) {
            Some(i) => {
                self.entries[i] = entry;
                proof {
                    assert(self@.entries =~= before.update(i as int, written));
                    assert forall|a: int, b: int| 0 <= a < b < self@.entries.len() implies (
                    #[trigger] self@.entries[a]).record.id != (#[trigger] self@.entries[b]).record.id by {
                        assert(before[a].record.id != before[b].record.id);
                    }
                }
            },
            None => {
                self.entries.push(entry);
                proof {
                    assert(self@.entries =~= before.push(written));
                    assert forall|a: int, b: int| 0 <= a < b < self@.entries.len() implies (
                    #[trigger] self@.entries[a]).record.id != (#[trigger] self@.entries[b]).record.id by {
                        if b < before.len() {
                            assert(before[a].record.id != before[b].record.id);
                        } else {
                            assert(before[a].record.id != written.record.id);
                        }
                    }
                }
            },
        }
    }

    /// The number of entries.
    pub fn len(&self) -> (n: usize)
        ensures
            n == self@.entries.len(),
    {
        self.entries.len()
    }

    /// A copy of the entry at place `i` in the order of the store.
    pub fn entry_at(&self, i: usize) -> (e: StoreEntry)
        requires
            i < self@.entries.len(),
        ensures
            e@ == self@.entries[i as int],
    {
        StoreEntry {
            record: self.entries[i].record.clone(),
            embedding: self.entries[i].embedding.clone(),
            indexed_at: self.entries[i].indexed_at,
        }
    }

    /// The number of metadata keys.
    pub fn meta_len(&self) -> (n: usize)
        ensures
            n == self@.meta.len(),
    {
        self.meta.len()
    }

    /// A copy of the metadata pair at place `i`.
    pub fn meta_at(&self, i: usize) -> (pair: (String, String))
        requires
            i < self@.meta.len(),
        ensures
            (pair.0@, pair.1@) == self@.meta[i as int],
    {
        (self.meta[i].0.clone(), self.meta[i].1.clone())
    }

    /// Removes the entry with identifier `id`, record and embedding
    /// together. An unknown identifier changes nothing.
    pub fn delete_note(&mut self, id: &str)
        requires
            old(self).wf(),
        ensures
            final(self)@.entries == deleted(old(self)@.entries, id@),
            final(self)@.meta == old(self)@.meta,
            final(self).wf(),
    {
        let key = String::from_str(id);
        let ghost before = self@.entries;
        match self.find(&key) {
            Some(i) => {
                let _ = self.entries.remove(i);
                proof {
                    assert(self@.entries =~= before.remove(i as int));
                    assert forall|a: int, b: int| 0 <= a < b < self@.entries.len() implies (
                    #[trigger] self@.entries[a]).record.id != (#[trigger] self@.entries[b]).record.id by {
                        let aa = if a < i { a } else { a + 1 };
                        let bb = if b < i { b } else { b + 1 };
                        assert(before[aa].record.id != before[bb].record.id);
                    }
                }
            },
            None => {},
        }
    }

    /// The record with identifier `id`.
    pub fn get_note(&self, id: &str) -> (r: Option<NoteRecord>)
        requires
            self.wf(),
        ensures
            match r {
                Some(record) => lookup(self@.entries, id@) matches Some(e) && record@ == e.record,
                None => lookup(self@.entries, id@) is None,
            },
    {
        let key = String::from_str(id);
        match self.find(&key) {
            Some(i) => Some(self.entries[i].record.clone()),
            None => None,
        }
    }

    /// The embedding stored with identifier `id`.
    pub fn get_embedding(&self, id: &str) -> (r: Option<Vec<u32>>)
        requires
            self.wf(),
        ensures
            match r {
                Some(v) => lookup(self@.entries, id@) matches Some(e) && v@ == e.embedding,
                None => lookup(self@.entries, id@) is None,
            },
    {
        let key = String::from_str(id);
        match self.find(&key) {
            Some(i) => Some(self.entries[i].embedding.clone()),
            None => None,
        }
    }

    /// Asks `similarity` about `query` and the embedding of every entry, in
    /// the order of the store.
    pub fn score_all<S: Fn(&[u32], &[u32]) -> u32>(&self, query: &[u32], similarity: &S) -> (scores:
        Vec<u32>)
        requires
            similarity_ready(similarity),
        ensures
            scores_match(similarity, query@, self@.entries, scores@),
    {
        let mut scores: Vec<u32> = Vec::new();
        let mut i: usize = 0;
        while i < self.entries.len()
            invariant
                i <= self.entries.len(),
                similarity_ready(similarity),
                scores.len() == i,
                forall|j: int|
                    0 <= j < i ==> scored(
                        similarity,
                        query@,
                        self@.entries[j].embedding,
                        #[trigger] scores[j],
                    ),
            decreases self.entries.len() - i,
        {
            let stored = self.entries[i].embedding.as_slice();
            let score = similarity(query, stored);
            proof {
                assert(stored@ == self@.entries[i as int].embedding);
                assert(call_ensures(*similarity, (query, stored), score));
            }
            scores.push(score);
            i = i + 1;
        }
        scores
    }

    /// The `limit` best entries under `scores`, which holds one score for
    /// each entry in the order of the store: highest score first, entries
    /// with equal scores in the order of the store.
    pub fn top_hits(&self, scores: &[u32], limit: usize) -> (hits: Vec<(NoteRecord, u32)>)
        ensures
            hit_views(hits@) == ranked_hits(self@.entries, scores@, limit as int),
    {
        let mut hits: Vec<(NoteRecord, u32)> = Vec::new();
        if scores.len() != self.entries.len() {
            assert(hit_views(hits@) =~= ranked_hits(self@.entries, scores@, limit as int));
            return hits;
        }
        let mut keys: Vec<i128> = Vec::new();
        let mut i: usize = 0;
        while i < scores.len()
            invariant
                i <= scores.len(),
                keys@ == score_keys(scores@).take(i as int),
            decreases scores.len() - i,
        {
            let key = score_rank(scores[i]) as i128;
            assert(score_keys(scores@).take(i + 1) == score_keys(scores@).take(i as int).push(key));
            keys.push(key);
            i = i + 1;
        }
        assert(score_keys(scores@).take(scores.len() as int) == score_keys(scores@));
        let order = rank(&keys, limit);
        proof {
            lemma_ranking_unique(keys@, limit as int, order@, ranking_of(keys@, limit as int));
        }
        let mut p: usize = 0;
        while p < order.len()
            invariant
                p <= order.len(),
                scores.len() == self.entries.len(),
                keys.len() == scores.len(),
                is_ranking(keys@, limit as int, order@),
                hit_views(hits@) == Seq::new(
                    p as nat,
                    |t: int|
                        (self@.entries[order[t] as int].record, scores[order[t] as int]),
                ),
            decreases order.len() - p,
        {
            let at = order[p];
            let hit = (self.entries[at].record.clone(), scores[at]);
            proof {
                assert(hit_views(hits@.push(hit)) =~= hit_views(hits@).push((hit.0@, hit.1)));
                assert(hit.0@ == self@.entries[at as int].record);
            }
            hits.push(hit);
            assert(hit_views(hits@) =~= Seq::new(
                (p + 1) as nat,
                |t: int| (self@.entries[order[t] as int].record, scores[order[t] as int]),
            ));
            p = p + 1;
        }
        assert(hit_views(hits@) =~= ranked_hits(self@.entries, scores@, limit as int));
        hits
    }

    /// The `limit` entries most like `query_embedding`, best first.
    ///
    /// Every entry is scored by `similarity`; the result is that of
    /// [`VectorDB::top_hits`] on those scores.
    pub fn search<S: Fn(&[u32], &[u32]) -> u32>(
        &self,
        query_embedding: &[u32],
        limit: usize,
        similarity: &S,
    ) -> (hits: Vec<(NoteRecord, u32)>)
        requires
            similarity_ready(similarity),
        ensures
            exists|scores: Seq<u32>|
                #[trigger] scores_match(similarity, query_embedding@, self@.entries, scores)
                    && hit_views(hits@) == ranked_hits(self@.entries, scores, limit as int),
    {
        let scores = self.score_all(query_embedding, similarity);
        let hits = self.top_hits(scores.as_slice(), limit);
        assert(scores_match(similarity, query_embedding@, self@.entries, scores@));
        hits
    }

    /// How many records and embeddings the store holds, and when the latest
    /// was written.
    pub fn get_stats(&self) -> (stats: IndexStats)
        ensures
            stats.note_count == self@.entries.len(),
            stats.embedding_count == self@.entries.len(),
            stats.last_indexed == latest_write(self@.entries),
    {
        let mut last: Option<i64> = None;
        let mut i: usize = 0;
        while i < self.entries.len()
            invariant
                i <= self.entries.len(),
                last == latest_write(self@.entries.take(i as int)),
            decreases self.entries.len() - i,
        {
            let t = self.entries[i].indexed_at;
            proof {
                let next = self@.entries.take(i + 1);
                assert(next.drop_last() == self@.entries.take(i as int));
                assert(next.last().indexed_at == t);
            }
            last = match last {
                Some(best) => Some(if best >= t { best } else { t }),
                None => Some(t),
            };
            i = i + 1;
        }
        assert(self@.entries.take(self.entries.len() as int) == self@.entries);
        IndexStats {
            note_count: self.entries.len(),
            embedding_count: self.entries.len(),
            last_indexed: last,
        }
    }

    /// Every identifier with the modification time of its note, in the
    /// order of the store.
    pub fn get_all_mtimes(&self) -> (r: Vec<(String, i64)>)
        ensures
            mtime_views(r@) == Seq::new(
                self@.entries.len(),
                |i: int| (self@.entries[i].record.id, self@.entries[i].record.mtime),
            ),
    {
        let mut r: Vec<(String, i64)> = Vec::new();
        let mut i: usize = 0;
        while i < self.entries.len()
            invariant
                i <= self.entries.len(),
                mtime_views(r@) == Seq::new(
                    i as nat,
                    |j: int| (self@.entries[j].record.id, self@.entries[j].record.mtime),
                ),
            decreases self.entries.len() - i,
        {
            let pair = (self.entries[i].record.id.clone(), self.entries[i].record.mtime);
            proof {
                assert(mtime_views(r@.push(pair)) =~= mtime_views(r@).push((pair.0@, pair.1)));
            }
            r.push(pair);
            assert(mtime_views(r@) =~= Seq::new(
                (i + 1) as nat,
                |j: int| (self@.entries[j].record.id, self@.entries[j].record.mtime),
            ));
            i = i + 1;
        }
        r
    }

    /// Writes `value` for `key`, in place of any earlier value.
    pub fn set_meta(&mut self, key: &str, value: &str)
        requires
            old(self).wf(),
        ensures
            final(self)@.meta == meta_written(old(self)@.meta, key@, value@),
            final(self)@.entries == old(self)@.entries,
            final(self).wf(),
    {
        let k = String::from_str(key);
        let v = String::from_str(value);
        let ghost before = self@.meta;
        match self.find_key(&k) {
            Some(i) => {
                self.meta[i] = (k, v);
                proof {
                    assert(self@.meta =~= before.update(i as int, (key@, value@)));
                    assert forall|a: int, b: int| 0 <= a < b < self@.meta.len() implies (
                    #[trigger] self@.meta[a]).0 != (#[trigger] self@.meta[b]).0 by {
                        assert(before[a].0 != before[b].0);
                    }
                }
            },
            None => {
                self.meta.push((k, v));
                proof {
                    assert(self@.meta =~= before.push((key@, value@)));
                    assert forall|a: int, b: int| 0 <= a < b < self@.meta.len() implies (
                    #[trigger] self@.meta[a]).0 != (#[trigger] self@.meta[b]).0 by {
                        if b < before.len() {
                            assert(before[a].0 != before[b].0);
                        } else {
                            assert(before[a].0 != key@);
                        }
                    }
                }
            },
        }
    }

    /// The value written for `key`.
    pub fn get_meta(&self, key: &str) -> (r: Option<String>)
        requires
            self.wf(),
        ensures
            crate::record::option_view(r) == meta_value(self@.meta, key@),
    {
        let k = String::from_str(key);
        match self.find_key(&k) {
            Some(i) => Some(self.meta[i].1.clone()),
            None => None,
        }
    }

    /// Where the entry with identifier `id` stands.
    fn find(&self, id: &String) -> (r: Option<usize>)
        requires
            self.wf(),
        ensures
            match r {
                Some(i) => i < self@.entries.len() && has_id(self@.entries, id@) && slot_of(
                    self@.entries,
                    id@,
                ) == i && i < self.entries.len(),
                None => !has_id(self@.entries, id@),
            },
    {
        let mut i: usize = 0;
        while i < self.entries.len()
            invariant
                i <= self.entries.len(),
                self@.well_formed(),
                forall|j: int| 0 <= j < i ==> (#[trigger] self@.entries[j]).record.id != id@,
            decreases self.entries.len() - i,
        {
            if self.entries[i].record.id == *id {
                proof {
                    assert(self@.entries[i as int].record.id == id@);
                    lemma_slot(self@.entries, i as int);
                }
                return Some(i);
            }
            i = i + 1;
        }
        None
    }

    /// Where the value for `key` stands.
    fn find_key(&self, key: &String) -> (r: Option<usize>)
        requires
            self.wf(),
        ensures
            match r {
                Some(i) => i < self@.meta.len() && has_key(self@.meta, key@) && key_slot(
                    self@.meta,
                    key@,
                ) == i && i < self.meta.len(),
                None => !has_key(self@.meta, key@),
            },
    {
        let mut i: usize = 0;
        while i < self.meta.len()
            invariant
                i <= self.meta.len(),
                self@.well_formed(),
                forall|j: int| 0 <= j < i ==> (#[trigger] self@.meta[j]).0 != key@,
            decreases self.meta.len() - i,
        {
            if self.meta[i].0 == *key {
                proof {
                    assert(self@.meta[i as int].0 == key@);
                    lemma_key_slot(self@.meta, i as int);
                }
                return Some(i);
            }
            i = i + 1;
        }
        None
    }
}

} // verus!
