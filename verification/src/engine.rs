//! The search engine: an embedding model made ready on first use, and a
//! vector store.
//!
//! The floating-point work is done by two kernels that the caller supplies:
//! one pools the residues of a text into an embedding, the other scores two
//! embeddings against each other.
use vstd::prelude::*;
use vstd::string::StringExecFns;
use crate::embedding::{
    code_views, embeds, embedding_view, kernel_computes, kernel_ready, lemma_embed_deterministic,
    EmbeddingModel,
};
use crate::error::SearchError;
use crate::note::{note_views, Note, NoteView};
use crate::paths::VaultPaths;
use crate::record::{option_view, NoteRecord, NoteRecordView};
use crate::schema::{decimal, decimal_string, signed_decimal, signed_decimal_string};
use crate::ranking::{is_ranking, lemma_ranking_unique, rank};
use crate::text::{
    chars_of, contains_run, is_substring, split_words, string_views, unicode_lowercase, words,
};
use crate::vectordb::{
    ranking_of, scored,
    has_id, hit_views, meta_written, ranked_hits, scores_match, similarity_ready, unique_ids,
    upserted, EntryView, IndexStats, StoreView, VectorDB,
};

verus! {

/// How a search result was scored.
#[derive(Debug, Clone, Copy, PartialEq, Eq, Structural)]
pub enum Score {
    /// The bit pattern of a similarity, a single-precision number.
    Similarity(u32),
    /// So many of the query's terms were found, out of so many.
    MatchRatio(usize, usize),
}

/// A note that a search found, and its score.
#[derive(Debug)]
pub struct SearchResult {
    pub id: String,
    pub path: String,
    pub title: String,
    pub gist: Option<String>,
    pub note_type: Option<String>,
    pub area: Option<String>,
    pub score: Score,
}

/// A search result as plain values.
pub struct SearchResultView {
    pub id: Seq<char>,
    pub path: Seq<char>,
    pub title: Seq<char>,
    pub gist: Option<Seq<char>>,
    pub note_type: Option<Seq<char>>,
    pub area: Option<Seq<char>>,
    pub score: Score,
}

impl View for SearchResult {
    type V = SearchResultView;

    open spec fn view(&self) -> SearchResultView {
        SearchResultView {
            id: self.id@,
            path: self.path@,
            title: self.title@,
            gist: option_view(self.gist),
            note_type: option_view(self.note_type),
            area: option_view(self.area),
            score: self.score,
        }
    }
}

/// The views of the results in `v`.
pub open spec fn result_views(v: Seq<SearchResult>) -> Seq<SearchResultView> {
    Seq::new(v.len(), |i: int| v[i]@)
}

/// The search result for a record of the store and its similarity.
pub open spec fn result_of(hit: (NoteRecordView, u32)) -> SearchResultView {
    SearchResultView {
        id: hit.0.id,
        path: hit.0.path,
        title: hit.0.title,
        gist: hit.0.gist,
        note_type: hit.0.note_type,
        area: hit.0.area,
        score: Score::Similarity(hit.1),
    }
}

impl SearchResult {
    /// The search result for a record of the store and its similarity.
    pub fn from_hit(record: NoteRecord, score: u32) -> (r: SearchResult)
        ensures
            r@ == result_of((record@, score)),
    {
        SearchResult {
            id: record.id,
            path: record.path,
            title: record.title,
            gist: record.gist,
            note_type: record.note_type,
            area: record.area,
            score: Score::Similarity(score),
        }
    }
}

impl Clone for SearchResult {
    fn clone(&self) -> (r: Self)
        ensures
            r@ == self@,
    {
        SearchResult {
            id: self.id.clone(),
            path: self.path.clone(),
            title: self.title.clone(),
            gist: crate::record::clone_option(&self.gist),
            note_type: crate::record::clone_option(&self.note_type),
            area: crate::record::clone_option(&self.area),
            score: self.score,
        }
    }
}

/// How a run over all notes went.
#[derive(Debug)]
pub struct IndexingStats {
    /// Notes that were embedded and stored.
    pub indexed: usize,
    /// Notes without a summary.
    pub skipped: usize,
    /// Notes for which embedding failed.
    pub failed: usize,
    /// How long the run took. The engine has no clock: it leaves 0 here for
    /// the caller to fill in.
    pub duration_ms: u128,
}

/// The record under which `note` is indexed: its name is both identifier
/// and title.
pub open spec fn record_of(note: NoteView) -> NoteRecordView {
    NoteRecordView {
        id: note.name,
        path: note.path,
        title: note.name,
        gist: note.gist(),
        note_type: note.note_type(),
        status: note.status(),
        area: note.area(),
        tags: note.tags(),
        mtime: note.modified,
    }
}

/// Indexing `note` at time `now` turned the entries `before` into `after`
/// and reported `outcome`.
///
/// A note without a summary, or with an empty one, is skipped: nothing
/// changes and the outcome is `Ok(false)`. Any other note has its summary
/// embedded. Where that succeeds the note is written to the store and the
/// outcome is `Ok(true)`; where it fails nothing changes and the outcome is
/// the failure.
pub open spec fn note_indexed<K: Fn(&Vec<u64>, &Vec<Vec<u64>>) -> Vec<u32>>(
    kernel: &K,
    before: Seq<EntryView>,
    note: NoteView,
    now: i64,
    after: Seq<EntryView>,
    outcome: Result<bool, SearchError>,
) -> bool {
    if !note.has_gist() {
        after == before && outcome == Ok::<bool, SearchError>(false)
    } else {
        exists|e: Result<Seq<u32>, SearchError>| #[trigger]
            embeds(kernel, note.gist().unwrap(), e) && match e {
                Ok(v) => after == upserted(
                    before,
                    EntryView { record: record_of(note), embedding: v, indexed_at: now },
                ) && outcome == Ok::<bool, SearchError>(true),
                Err(err) => after == before && outcome == Err::<bool, SearchError>(err),
            }
    }
}

/// Indexing `notes` one after the other at time `now` turned the entries
/// `before` into `after`; `indexed`, `skipped` and `failed` count the
/// outcomes.
pub open spec fn batch_indexed<K: Fn(&Vec<u64>, &Vec<Vec<u64>>) -> Vec<u32>>(
    kernel: &K,
    before: Seq<EntryView>,
    notes: Seq<NoteView>,
    now: i64,
    after: Seq<EntryView>,
    indexed: int,
    skipped: int,
    failed: int,
) -> bool
    decreases notes.len(),
{
    if notes.len() == 0 {
        after == before && indexed == 0 && skipped == 0 && failed == 0
    } else {
        exists|mid: Seq<EntryView>, outcome: Result<bool, SearchError>| #[trigger]
            note_indexed(kernel, mid, notes.last(), now, after, outcome) && batch_indexed(
                kernel,
                before,
                notes.drop_last(),
                now,
                mid,
                indexed - if outcome == Ok::<bool, SearchError>(true) {
                    1int
                } else {
                    0int
                },
                skipped - if outcome == Ok::<bool, SearchError>(false) {
                    1int
                } else {
                    0int
                },
                failed - if outcome is Err {
                    1int
                } else {
                    0int
                },
            )
    }
}

/// The metadata after a run that indexed `indexed` notes at time `now`.
pub open spec fn run_recorded(meta: Seq<(Seq<char>, Seq<char>)>, indexed: int, now: i64) -> Seq<
    (Seq<char>, Seq<char>),
> {
    meta_written(
        meta_written(meta, "indexed_count"@, decimal(indexed as nat)),
        "last_full_index"@,
        signed_decimal(now as int),
    )
}

/// The outcome of a search, as plain values.
pub open spec fn search_view(r: Result<Vec<SearchResult>, SearchError>) -> Result<
    Seq<SearchResultView>,
    SearchError,
> {
    match r {
        Ok(v) => Ok(result_views(v@)),
        Err(e) => Err(e),
    }
}

/// The search results for the hits of the store.
pub open spec fn results_of(hits: Seq<(NoteRecordView, u32)>) -> Seq<SearchResultView> {
    Seq::new(hits.len(), |i: int| result_of(hits[i]))
}

/// Given the outcome `embedded` of embedding the query and the `scores` of
/// the entries against it, a search returns `r`: the failure to embed, or
/// else the `limit` best entries.
pub open spec fn search_outcome<S: Fn(&[u32], &[u32]) -> u32>(
    similarity: &S,
    entries: Seq<EntryView>,
    limit: int,
    embedded: Result<Seq<u32>, SearchError>,
    scores: Seq<u32>,
    r: Result<Seq<SearchResultView>, SearchError>,
) -> bool {
    match embedded {
        Err(err) => r == Err::<Seq<SearchResultView>, SearchError>(err),
        Ok(v) => scores_match(similarity, v, entries, scores) && r == Ok::<
            Seq<SearchResultView>,
            SearchError,
        >(results_of(ranked_hits(entries, scores, limit))),
    }
}

/// A search for `query` among `entries` gave `r`: the query was embedded; if
/// that failed, `r` is the failure; else every entry was scored against the
/// query's embedding and `r` lists the `limit` best.
pub open spec fn search_found<
    K: Fn(&Vec<u64>, &Vec<Vec<u64>>) -> Vec<u32>,
    S: Fn(&[u32], &[u32]) -> u32,
>(
    kernel: &K,
    similarity: &S,
    entries: Seq<EntryView>,
    query: Seq<char>,
    limit: int,
    r: Result<Seq<SearchResultView>, SearchError>,
) -> bool {
    exists|embedded: Result<Seq<u32>, SearchError>, scores: Seq<u32>|
        embeds(kernel, query, embedded) && #[trigger] search_outcome(
            similarity,
            entries,
            limit,
            embedded,
            scores,
            r,
        )
}

/// The engine. Its model is made on first use and kept.
pub struct SearchEngine {
    model: Option<EmbeddingModel>,
    db: VectorDB,
    vault_paths: VaultPaths,
    model_path: String,
}

impl SearchEngine {
    /// What the engine's store holds.
    pub closed spec fn store(&self) -> StoreView {
        self.db@
    }

    /// Whether the model has been made.
    pub closed spec fn model_ready(&self) -> bool {
        self.model is Some
    }

    /// The engine is valid: its store is, and its paths are those of its
    /// vault.
    pub closed spec fn wf(&self) -> bool {
        self.db.wf() && self.vault_paths.rooted()
    }

    /// The root of the vault that the engine indexes.
    pub closed spec fn vault_root(&self) -> Seq<char> {
        self.vault_paths.root@
    }

    /// The path that the engine was given for its model.
    pub closed spec fn model_file(&self) -> Seq<char> {
        self.model_path@
    }

    /// An engine over the store `db`, for the vault at `vault_path`. The
    /// model is not made yet.
    pub fn new(vault_path: &str, db: VectorDB, model_path: &str) -> (engine: Self)
        requires
            db.wf(),
        ensures
            engine.wf(),
            engine.store() == db@,
            !engine.model_ready(),
            engine.vault_root() == vault_path@,
            engine.model_file() == model_path@,
    {
        SearchEngine {
            model: None,
            db,
            vault_paths: VaultPaths::from_root(String::from_str(vault_path)),
            model_path: String::from_str(model_path),
        }
    }

    /// An engine over an empty store in memory.
    pub fn new_in_memory(vault_path: &str, model_path: &str) -> (engine: Self)
        ensures
            engine.wf(),
            engine.store().entries.len() == 0,
            engine.store().meta.len() == 0,
            !engine.model_ready(),
            engine.vault_root() == vault_path@,
            engine.model_file() == model_path@,
    {
        SearchEngine {
            model: None,
            db: VectorDB::open_in_memory(),
            vault_paths: VaultPaths::from_root(String::from_str(vault_path)),
            model_path: String::from_str(model_path),
        }
    }

    /// Makes the model if it has not been made. A failure to make it would
    /// be returned and leave the engine without a model; this model needs
    /// no file, so making it always succeeds.
    pub fn ensure_model(&mut self) -> (r: Result<(), SearchError>)
        requires
            old(self).wf(),
        ensures
            final(self).wf(),
            final(self).store() == old(self).store(),
            final(self).vault_root() == old(self).vault_root(),
            final(self).model_file() == old(self).model_file(),
            r is Ok,
            final(self).model_ready(),
    {
        if self.model.is_none() {
            match EmbeddingModel::load(self.model_path.as_str()) {
                Ok(model) => {
                    self.model = Some(model);
                },
                Err(e) => {
                    return Err(e);
                },
            }
        }
        Ok(())
    }

    /// The engine's store.
    pub fn db(&self) -> (db: &VectorDB)
        ensures
            db@ == self.store(),
            self.wf() ==> db.wf(),
    {
        &self.db
    }

    /// The layout of the vault that the engine indexes.
    pub fn vault_paths(&self) -> (paths: &VaultPaths)
        requires
            self.wf(),
        ensures
            paths.root@ == self.vault_root(),
            paths.rooted(),
    {
        &self.vault_paths
    }

    /// The path that the engine was given for its model.
    pub fn model_path(&self) -> (path: &str)
        ensures
            path@ == self.model_file(),
    {
        self.model_path.as_str()
    }

    /// The path of the store's file. The engine does not know it: the
    /// answer is the empty path.
    pub fn db_path(&self) -> (r: &str)
        ensures
            r@.len() == 0,
    {
        proof {
            reveal_strlit("");
        }
        ""
    }

    /// Counts of what the store holds.
    pub fn get_stats(&self) -> (stats: IndexStats)
        ensures
            stats.note_count == self.store().entries.len(),
            stats.embedding_count == self.store().entries.len(),
            stats.last_indexed == crate::vectordb::latest_write(self.store().entries),
    {
        self.db.get_stats()
    }

    /// Indexes one note: embeds its summary and writes the note to the
    /// store. Returns whether the note was indexed; a note without a
    /// summary, or with an empty one, is not.
    pub fn index_note<K: Fn(&Vec<u64>, &Vec<Vec<u64>>) -> Vec<u32>>(
        &mut self,
        note: &Note,
        kernel: &K,
        now: i64,
    ) -> (r: Result<bool, SearchError>)
        requires
            old(self).wf(),
            kernel_ready(kernel),
        ensures
            final(self).wf(),
            final(self).store().meta == old(self).store().meta,
            final(self).model_ready() == (old(self).model_ready() || note@.has_gist()),
            note_indexed(
                kernel,
                old(self).store().entries,
                note@,
                now,
                final(self).store().entries,
                r,
            ),
    {
        let gist = match note.gist() {
            Some(g) => g,
            None => {
                return Ok(false);
            },
        };
        if gist.unicode_len() == 0 {
            return Ok(false);
        }
        match self.ensure_model() {
            Ok(()) => {},
            Err(e) => {
                return Err(e);
            },
        }
        let embedded = match &self.model {
            Some(model) => model.embed(gist, kernel),
            None => Err(SearchError::ModelUnavailable),
        };
        let embedding = match embedded {
            Ok(v) => v,
            Err(e) => {
                assert(embeds(kernel, gist@, embedding_view(embedded)));
                return Err(e);
            },
        };
        let record = NoteRecord {
            id: note.name.clone(),
            path: note.path.clone(),
            title: note.name.clone(),
            gist: Some(String::from_str(gist)),
            note_type: crate::record::own_option(note.note_type()),
            status: crate::record::own_option(note.status()),
            area: crate::record::own_option(note.area()),
            tags: note.tags(),
            mtime: note.modified,
        };
        assert(record@ == record_of(note@));
        assert(embeds(kernel, gist@, embedding_view(embedded)));
        self.db.upsert_note(&record, embedding.as_slice(), now);
        Ok(true)
    }

    /// Indexes every note of `notes`, one after the other. A note that
    /// fails is counted and the run goes on. At the end the number of
    /// indexed notes and the time `now` are written to the store's
    /// metadata, under `indexed_count` and `last_full_index`.
    pub fn index_all<K: Fn(&Vec<u64>, &Vec<Vec<u64>>) -> Vec<u32>>(
        &mut self,
        notes: &Vec<Note>,
        kernel: &K,
        now: i64,
    ) -> (stats: IndexingStats)
        requires
            old(self).wf(),
            kernel_ready(kernel),
        ensures
            final(self).wf(),
            batch_indexed(
                kernel,
                old(self).store().entries,
                note_views(notes@),
                now,
                final(self).store().entries,
                stats.indexed as int,
                stats.skipped as int,
                stats.failed as int,
            ),
            stats.indexed + stats.skipped + stats.failed == notes.len(),
            stats.duration_ms == 0,
            final(self).model_ready() == (old(self).model_ready() || stats.skipped < notes.len()),
            final(self).store().meta == run_recorded(
                old(self).store().meta,
                stats.indexed as int,
                now,
            ),
    {
        let mut indexed: usize = 0;
        let mut skipped: usize = 0;
        let mut failed: usize = 0;
        let ghost start = self.store().entries;
        let ghost all = note_views(notes@);
        let mut i: usize = 0;
        assert(all.take(0).len() == 0);
        while i < notes.len()
            invariant
                i <= notes.len(),
                all == note_views(notes@),
                self.wf(),
                kernel_ready(kernel),
                self.store().meta == old(self).store().meta,
                indexed + skipped + failed == i,
                self.model_ready() == (old(self).model_ready() || skipped < i),
                batch_indexed(
                    kernel,
                    start,
                    all.take(i as int),
                    now,
                    self.store().entries,
                    indexed as int,
                    skipped as int,
                    failed as int,
                ),
            decreases notes.len() - i,
        {
            let ghost mid = self.store().entries;
            let ghost counts = (indexed as int, skipped as int, failed as int);
            let outcome = self.index_note(&notes[i], kernel, now);
            match outcome {
                Ok(true) => {
                    indexed = indexed + 1;
                },
                Ok(false) => {
                    skipped = skipped + 1;
                },
                Err(_) => {
                    failed = failed + 1;
                },
            }
            proof {
                let next = all.take(i + 1);
                assert(next.drop_last() == all.take(i as int));
                assert(next.last() == notes[i as int]@);
                assert(note_indexed(kernel, mid, next.last(), now, self.store().entries, outcome));
            }
            i = i + 1;
        }
        assert(all.take(notes.len() as int) == all);
        let count = decimal_string(indexed as u64);
        self.db.set_meta("indexed_count", count.as_str());
        let stamp = signed_decimal_string(now);
        self.db.set_meta("last_full_index", stamp.as_str());
        IndexingStats { indexed, skipped, failed, duration_ms: 0 }
    }

    /// Searches the store for the notes most like `query`.
    pub fn search<K: Fn(&Vec<u64>, &Vec<Vec<u64>>) -> Vec<u32>, S: Fn(&[u32], &[u32]) -> u32>(
        &mut self,
        query: &str,
        limit: usize,
        kernel: &K,
        similarity: &S,
    ) -> (r: Result<Vec<SearchResult>, SearchError>)
        requires
            old(self).wf(),
            kernel_ready(kernel),
            similarity_ready(similarity),
        ensures
            final(self).wf(),
            final(self).store() == old(self).store(),
            final(self).model_ready(),
            search_found(
                kernel,
                similarity,
                old(self).store().entries,
                query@,
                limit as int,
                search_view(r),
            ),
    {
        match self.ensure_model() {
            Ok(()) => {},
            Err(e) => {
                return Err(e);
            },
        }
        let embedded = match &self.model {
            Some(model) => model.embed(query, kernel),
            None => Err(SearchError::ModelUnavailable),
        };
        assert(embeds(kernel, query@, embedding_view(embedded)));
        let query_embedding = match embedded {
            Ok(v) => v,
            Err(e) => {
                assert(search_outcome(
                    similarity,
                    self.store().entries,
                    limit as int,
                    embedding_view(embedded),
                    Seq::<u32>::empty(),
                    Err::<Seq<SearchResultView>, SearchError>(e),
                ));
                return Err(e);
            },
        };
        let scores = self.db.score_all(query_embedding.as_slice(), similarity);
        let hits = self.db.top_hits(scores.as_slice(), limit);
        let ghost ranked = ranked_hits(self.store().entries, scores@, limit as int);
        let mut ordered: Vec<SearchResult> = Vec::new();
        let mut i: usize = 0;
        while i < hits.len()
            invariant
                i <= hits.len(),
                hit_views(hits@) == ranked,
                ordered.len() == i,
                forall|j: int| 0 <= j < i ==> (#[trigger] ordered[j])@ == result_of(ranked[j]),
            decreases hits.len() - i,
        {
            let record = hits[i].0.clone();
            proof {
                assert(hit_views(hits@)[i as int] == (hits[i as int].0@, hits[i as int].1));
            }
            ordered.push(SearchResult::from_hit(record, hits[i].1));
            i = i + 1;
        }
        proof {
            assert(hit_views(hits@).len() == hits.len());
            assert(result_views(ordered@) =~= results_of(ranked));
            let e = embedding_view(embedded);
            assert(e == Ok::<Seq<u32>, SearchError>(query_embedding@));
            assert(scores_match(similarity, query_embedding@, self.store().entries, scores@));
            assert(embeds(kernel, query@, e));
            assert(search_outcome(
                similarity,
                self.store().entries,
                limit as int,
                e,
                scores@,
                Ok::<Seq<SearchResultView>, SearchError>(result_views(ordered@)),
            ));
        }
        Ok(ordered)
    }
}

/// The terms of a query: the words of its lowercase form, cut at whitespace.
pub open spec fn query_terms(query: Seq<char>) -> Seq<Seq<char>> {
    words(unicode_lowercase(query), false)
}

/// How many of `terms` occur in `text`. A term that is listed twice counts
/// twice.
pub open spec fn matched_count(terms: Seq<Seq<char>>, text: Seq<char>) -> nat
    decreases terms.len(),
{
    if terms.len() == 0 {
        0
    } else {
        matched_count(terms.drop_last(), text) + if is_substring(terms.last(), text) {
            1nat
        } else {
            0nat
        }
    }
}

/// How many of `terms` occur in the lowercase form of the note's summary;
/// none where the note has no summary.
pub open spec fn lexical_key(note: NoteView, terms: Seq<Seq<char>>) -> nat {
    match note.gist() {
        Some(g) => matched_count(terms, unicode_lowercase(g)),
        None => 0,
    }
}

/// The keys by which notes are ranked in a lexical search.
pub open spec fn lexical_keys(notes: Seq<NoteView>, terms: Seq<Seq<char>>) -> Seq<i128> {
    Seq::new(notes.len(), |i: int| lexical_key(notes[i], terms) as i128)
}

/// The search result for a note in which `matched` of `total` terms occur.
pub open spec fn lexical_result(note: NoteView, matched: usize, total: usize) -> SearchResultView {
    SearchResultView {
        id: note.name,
        path: note.path,
        title: note.name,
        gist: note.gist(),
        note_type: note.note_type(),
        area: note.area(),
        score: Score::MatchRatio(matched, total),
    }
}

/// The results for the notes at the positions `order`, in that order, but
/// for those in which no term occurs.
pub open spec fn lexical_pick(
    notes: Seq<NoteView>,
    keys: Seq<i128>,
    total: usize,
    order: Seq<usize>,
) -> Seq<SearchResultView>
    decreases order.len(),
{
    if order.len() == 0 {
        Seq::empty()
    } else {
        let rest = lexical_pick(notes, keys, total, order.drop_last());
        let x = order.last() as int;
        if keys[x] > 0 {
            rest.push(lexical_result(notes[x], keys[x] as usize, total))
        } else {
            rest
        }
    }
}

/// What a lexical search for `query` finds among `notes`: the notes in
/// whose summary at least one term of the query occurs, those with more
/// terms first, those with equally many in the order given, `limit` at
/// most.
pub open spec fn lexical_hits(notes: Seq<NoteView>, query: Seq<char>, limit: int) -> Seq<
    SearchResultView,
> {
    let terms = query_terms(query);
    let keys = lexical_keys(notes, terms);
    lexical_pick(notes, keys, terms.len() as usize, ranking_of(keys, limit))
}

/// How many of `terms` occur in `text`.
fn count_matches(terms: &Vec<Vec<char>>, text: &Vec<char>) -> (n: usize)
    ensures
        n == matched_count(code_chars(terms@), text@),
        n <= terms.len(),
{
    let mut n: usize = 0;
    let mut i: usize = 0;
    let ghost all = code_chars(terms@);
    assert(all.take(0).len() == 0);
    while i < terms.len()
        invariant
            i <= terms.len(),
            all == code_chars(terms@),
            n <= i,
            n == matched_count(all.take(i as int), text@),
        decreases terms.len() - i,
    {
        proof {
            let next = all.take(i + 1);
            assert(next.drop_last() == all.take(i as int));
            assert(next.last() == terms[i as int]@);
        }
        if contains_run(text, &terms[i]) {
            n = n + 1;
        }
        i = i + 1;
    }
    assert(all.take(terms.len() as int) == all);
    n
}

/// The views of the character vectors in `v`.
pub open spec fn code_chars(v: Seq<Vec<char>>) -> Seq<Seq<char>> {
    Seq::new(v.len(), |i: int| v[i]@)
}

/// The terms of `query`, each as a vector of characters.
fn terms_of(query: &str) -> (terms: Vec<Vec<char>>)
    ensures
        code_chars(terms@) == query_terms(query@),
{
    let lower = query.to_lowercase();
    let chars = chars_of(lower.as_str());
    let pieces = split_words(&chars, false);
    let mut terms: Vec<Vec<char>> = Vec::new();
    let mut i: usize = 0;
    while i < pieces.len()
        invariant
            i <= pieces.len(),
            string_views(pieces@) == query_terms(query@),
            code_chars(terms@) == query_terms(query@).take(i as int),
        decreases pieces.len() - i,
    {
        let term = chars_of(pieces[i].as_str());
        proof {
            assert(string_views(pieces@)[i as int] == pieces[i as int]@);
            assert(code_chars(terms@.push(term)) =~= code_chars(terms@).push(term@));
            assert(query_terms(query@).take(i + 1) =~= query_terms(query@).take(i as int).push(
                term@,
            ));
        }
        terms.push(term);
        i = i + 1;
    }
    assert(query_terms(query@).take(pieces.len() as int) == query_terms(query@));
    terms
}

/// Lexical search, for when no index is at hand: ranks `notes` by how many
/// terms of `query` occur in their summaries. Letter case is ignored.
pub fn simple_search(notes: &Vec<Note>, query: &str, limit: usize) -> (results: Vec<SearchResult>)
    ensures
        result_views(results@) == lexical_hits(note_views(notes@), query@, limit as int),
{
    let terms = terms_of(query);
    let total = terms.len();
    let ghost spec_terms = query_terms(query@);
    let ghost all = note_views(notes@);
    let mut keys: Vec<i128> = Vec::new();
    let mut i: usize = 0;
    while i < notes.len()
        invariant
            i <= notes.len(),
            all == note_views(notes@),
            spec_terms == query_terms(query@),
            code_chars(terms@) == spec_terms,
            keys@ == lexical_keys(all, spec_terms).take(i as int),
        decreases notes.len() - i,
    {
        let key: usize = match notes[i].gist() {
            Some(g) => {
                let lower = g.to_lowercase();
                let text = chars_of(lower.as_str());
                count_matches(&terms, &text)
            },
            None => 0,
        };
        proof {
            assert(all[i as int] == notes[i as int]@);
            assert(key == lexical_key(all[i as int], spec_terms));
            assert(lexical_keys(all, spec_terms).take(i + 1) =~= lexical_keys(all, spec_terms).take(
                i as int,
            ).push(key as i128));
        }
        keys.push(key as i128);
        i = i + 1;
    }
    assert(lexical_keys(all, spec_terms).take(notes.len() as int) == lexical_keys(all, spec_terms));
    let order = rank(&keys, limit);
    proof {
        lemma_ranking_unique(keys@, limit as int, order@, ranking_of(keys@, limit as int));
        assert(code_chars(terms@).len() == terms.len());
    }
    let mut results: Vec<SearchResult> = Vec::new();
    let mut p: usize = 0;
    assert(order@.take(0).len() == 0);
    assert(result_views(results@) =~= lexical_pick(all, keys@, total, order@.take(0)));
    while p < order.len()
        invariant
            p <= order.len(),
            all == note_views(notes@),
            keys@ == lexical_keys(all, spec_terms),
            is_ranking(keys@, limit as int, order@),
            result_views(results@) == lexical_pick(all, keys@, total, order@.take(p as int)),
        decreases order.len() - p,
    {
        let x = order[p];
        proof {
            let next = order@.take(p + 1);
            assert(next.drop_last() == order@.take(p as int));
            assert(next.last() == x);
            assert(all[x as int] == notes[x as int]@);
        }
        if keys[x] > 0 {
            let note = &notes[x];
            let result = SearchResult {
                id: note.name.clone(),
                path: note.path.clone(),
                title: note.name.clone(),
                gist: crate::record::own_option(note.gist()),
                note_type: crate::record::own_option(note.note_type()),
                area: crate::record::own_option(note.area()),
                score: Score::MatchRatio(keys[x] as usize, total),
            };
            proof {
                assert(result@ == lexical_result(all[x as int], keys@[x as int] as usize, total));
                assert(result_views(results@.push(result)) =~= result_views(results@).push(result@));
            }
            results.push(result);
        }
        p = p + 1;
    }
    assert(order@.take(order.len() as int) == order@);
    results
}

/// How many of `notes` have no summary, or an empty one.
pub open spec fn without_gist(notes: Seq<NoteView>) -> nat
    decreases notes.len(),
{
    if notes.len() == 0 {
        0
    } else {
        without_gist(notes.drop_last()) + if notes.last().has_gist() {
            0nat
        } else {
            1nat
        }
    }
}

/// A write changes which identifiers the store holds by the written one
/// alone.
pub proof fn lemma_upsert_ids(entries: Seq<EntryView>, entry: EntryView, id: Seq<char>)
    ensures
        has_id(upserted(entries, entry), id) <==> (has_id(entries, id) || id == entry.record.id),
{
    let after = upserted(entries, entry);
    if has_id(entries, entry.record.id) {
        let at = crate::vectordb::slot_of(entries, entry.record.id);
        assert(after[at].record.id == entry.record.id);
        if has_id(entries, id) {
            let i = choose|i: int| 0 <= i < entries.len() && #[trigger] entries[i].record.id == id;
            assert(after[i].record.id == id);
        }
        if has_id(after, id) {
            let i = choose|i: int| 0 <= i < after.len() && #[trigger] after[i].record.id == id;
            if i != at {
                assert(entries[i].record.id == id);
            }
        }
    } else {
        assert(after[entries.len() as int].record.id == entry.record.id);
        if has_id(entries, id) {
            let i = choose|i: int| 0 <= i < entries.len() && #[trigger] entries[i].record.id == id;
            assert(after[i].record.id == id);
        }
        if has_id(after, id) {
            let i = choose|i: int| 0 <= i < after.len() && #[trigger] after[i].record.id == id;
            if i < entries.len() {
                assert(entries[i].record.id == id);
            }
        }
    }
}

/// Every note of a run is counted once: as indexed, as skipped or as
/// failed. The skipped ones are exactly those without a summary. A valid
/// store stays valid.
pub proof fn lemma_batch_counts<K: Fn(&Vec<u64>, &Vec<Vec<u64>>) -> Vec<u32>>(
    kernel: &K,
    before: Seq<EntryView>,
    notes: Seq<NoteView>,
    now: i64,
    after: Seq<EntryView>,
    indexed: int,
    skipped: int,
    failed: int,
)
    requires
        batch_indexed(kernel, before, notes, now, after, indexed, skipped, failed),
    ensures
        0 <= indexed,
        0 <= failed,
        skipped == without_gist(notes),
        indexed + skipped + failed == notes.len(),
        unique_ids(before) ==> unique_ids(after),
    decreases notes.len(),
{
    if notes.len() > 0 {
        let (mid, outcome) = choose|mid: Seq<EntryView>, outcome: Result<bool, SearchError>| #[trigger]
            note_indexed(kernel, mid, notes.last(), now, after, outcome) && batch_indexed(
                kernel,
                before,
                notes.drop_last(),
                now,
                mid,
                indexed - if outcome == Ok::<bool, SearchError>(true) {
                    1int
                } else {
                    0int
                },
                skipped - if outcome == Ok::<bool, SearchError>(false) {
                    1int
                } else {
                    0int
                },
                failed - if outcome is Err {
                    1int
                } else {
                    0int
                },
            );
        lemma_batch_counts(
            kernel,
            before,
            notes.drop_last(),
            now,
            mid,
            indexed - if outcome == Ok::<bool, SearchError>(true) {
                1int
            } else {
                0int
            },
            skipped - if outcome == Ok::<bool, SearchError>(false) {
                1int
            } else {
                0int
            },
            failed - if outcome is Err {
                1int
            } else {
                0int
            },
        );
        if notes.last().has_gist() {
            let e = choose|e: Result<Seq<u32>, SearchError>| #[trigger]
                embeds(kernel, notes.last().gist().unwrap(), e) && match e {
                    Ok(v) => after == upserted(
                        mid,
                        EntryView { record: record_of(notes.last()), embedding: v, indexed_at: now },
                    ) && outcome == Ok::<bool, SearchError>(true),
                    Err(err) => after == mid && outcome == Err::<bool, SearchError>(err),
                };
            if unique_ids(before) {
                match e {
                    Ok(v) => {
                        crate::vectordb::lemma_upsert_lookup(
                            mid,
                            EntryView {
                                record: record_of(notes.last()),
                                embedding: v,
                                indexed_at: now,
                            },
                        );
                    },
                    Err(_) => {},
                }
            }
        }
    }
}

/// A note without a summary is not brought into the store by a run: if the
/// store did not hold its identifier before, and no note of the run with
/// that identifier has a summary, the store does not hold it afterwards.
pub proof fn lemma_skipped_never_stored<K: Fn(&Vec<u64>, &Vec<Vec<u64>>) -> Vec<u32>>(
    kernel: &K,
    before: Seq<EntryView>,
    notes: Seq<NoteView>,
    now: i64,
    after: Seq<EntryView>,
    indexed: int,
    skipped: int,
    failed: int,
    id: Seq<char>,
)
    requires
        batch_indexed(kernel, before, notes, now, after, indexed, skipped, failed),
        !has_id(before, id),
        forall|i: int| 0 <= i < notes.len() && (#[trigger] notes[i]).name == id ==> !notes[i].has_gist(),
    ensures
        !has_id(after, id),
    decreases notes.len(),
{
    if notes.len() > 0 {
        let (mid, outcome) = choose|mid: Seq<EntryView>, outcome: Result<bool, SearchError>| #[trigger]
            note_indexed(kernel, mid, notes.last(), now, after, outcome) && batch_indexed(
                kernel,
                before,
                notes.drop_last(),
                now,
                mid,
                indexed - if outcome == Ok::<bool, SearchError>(true) {
                    1int
                } else {
                    0int
                },
                skipped - if outcome == Ok::<bool, SearchError>(false) {
                    1int
                } else {
                    0int
                },
                failed - if outcome is Err {
                    1int
                } else {
                    0int
                },
            );
        assert forall|i: int| 0 <= i < notes.drop_last().len() && (#[trigger] notes.drop_last()[i]).name
            == id implies !notes.drop_last()[i].has_gist() by {
            assert(notes.drop_last()[i] == notes[i]);
        }
        lemma_skipped_never_stored(
            kernel,
            before,
            notes.drop_last(),
            now,
            mid,
            indexed - if outcome == Ok::<bool, SearchError>(true) {
                1int
            } else {
                0int
            },
            skipped - if outcome == Ok::<bool, SearchError>(false) {
                1int
            } else {
                0int
            },
            failed - if outcome is Err {
                1int
            } else {
                0int
            },
            id,
        );
        let last = notes.last();
        assert(last == notes[notes.len() - 1]);
        if last.has_gist() {
            let e = choose|e: Result<Seq<u32>, SearchError>| #[trigger]
                embeds(kernel, last.gist().unwrap(), e) && match e {
                    Ok(v) => after == upserted(
                        mid,
                        EntryView { record: record_of(last), embedding: v, indexed_at: now },
                    ) && outcome == Ok::<bool, SearchError>(true),
                    Err(err) => after == mid && outcome == Err::<bool, SearchError>(err),
                };
            match e {
                Ok(v) => {
                    lemma_upsert_ids(
                        mid,
                        EntryView { record: record_of(last), embedding: v, indexed_at: now },
                        id,
                    );
                },
                Err(_) => {},
            }
        }
    }
}

/// The similarity kernel is a function: whatever it answers is `g` of the two
/// vectors it was asked about.
pub open spec fn similarity_computes<S: Fn(&[u32], &[u32]) -> u32>(
    similarity: &S,
    g: spec_fn(Seq<u32>, Seq<u32>) -> u32,
) -> bool {
    forall|a: &[u32], b: &[u32], score: u32|
        call_ensures(*similarity, (a, b), score) ==> score == g(a@, b@)
}

/// Search is deterministic: under kernels that are functions, any two
/// searches for one query in one store with one limit give the same
/// results.
pub proof fn lemma_search_deterministic<
    K: Fn(&Vec<u64>, &Vec<Vec<u64>>) -> Vec<u32>,
    S: Fn(&[u32], &[u32]) -> u32,
>(
    kernel: &K,
    similarity: &S,
    f: spec_fn(Seq<u64>, Seq<Seq<u64>>) -> Seq<u32>,
    g: spec_fn(Seq<u32>, Seq<u32>) -> u32,
    entries: Seq<EntryView>,
    query: Seq<char>,
    limit: int,
    first: Result<Seq<SearchResultView>, SearchError>,
    second: Result<Seq<SearchResultView>, SearchError>,
)
    requires
        kernel_computes(kernel, f),
        similarity_computes(similarity, g),
        search_found(kernel, similarity, entries, query, limit, first),
        search_found(kernel, similarity, entries, query, limit, second),
    ensures
        first == second,
{
    let (e1, s1) = choose|e: Result<Seq<u32>, SearchError>, s: Seq<u32>|
        embeds(kernel, query, e) && #[trigger] search_outcome(similarity, entries, limit, e, s, first);
    let (e2, s2) = choose|e: Result<Seq<u32>, SearchError>, s: Seq<u32>|
        embeds(kernel, query, e) && #[trigger] search_outcome(similarity, entries, limit, e, s, second);
    lemma_embed_deterministic(kernel, f, query, e1, e2);
    match e1 {
        Ok(v) => {
            assert forall|i: int| 0 <= i < entries.len() implies s1[i] == s2[i] by {
                assert(scored(similarity, v, entries[i].embedding, s1[i]));
                assert(scored(similarity, v, entries[i].embedding, s2[i]));
                assert(s1[i] == g(v, entries[i].embedding));
                assert(s2[i] == g(v, entries[i].embedding));
            }
            assert(s1 =~= s2);
        },
        Err(_) => {},
    }
}

/// Indexing one note is deterministic: under a kernel that is a function,
/// the entries before and the note decide the entries after and the outcome.
pub proof fn lemma_note_indexed_deterministic<K: Fn(&Vec<u64>, &Vec<Vec<u64>>) -> Vec<u32>>(
    kernel: &K,
    f: spec_fn(Seq<u64>, Seq<Seq<u64>>) -> Seq<u32>,
    before: Seq<EntryView>,
    note: NoteView,
    now: i64,
    first: (Seq<EntryView>, Result<bool, SearchError>),
    second: (Seq<EntryView>, Result<bool, SearchError>),
)
    requires
        kernel_computes(kernel, f),
        note_indexed(kernel, before, note, now, first.0, first.1),
        note_indexed(kernel, before, note, now, second.0, second.1),
    ensures
        first == second,
{
    if note.has_gist() {
        let gist = note.gist().unwrap();
        let e1 = choose|e: Result<Seq<u32>, SearchError>| #[trigger]
            embeds(kernel, gist, e) && match e {
                Ok(v) => first.0 == upserted(
                    before,
                    EntryView { record: record_of(note), embedding: v, indexed_at: now },
                ) && first.1 == Ok::<bool, SearchError>(true),
                Err(err) => first.0 == before && first.1 == Err::<bool, SearchError>(err),
            };
        let e2 = choose|e: Result<Seq<u32>, SearchError>| #[trigger]
            embeds(kernel, gist, e) && match e {
                Ok(v) => second.0 == upserted(
                    before,
                    EntryView { record: record_of(note), embedding: v, indexed_at: now },
                ) && second.1 == Ok::<bool, SearchError>(true),
                Err(err) => second.0 == before && second.1 == Err::<bool, SearchError>(err),
            };
        lemma_embed_deterministic(kernel, f, gist, e1, e2);
    }
}

/// A run over all notes is deterministic: under a kernel that is a
/// function, the entries before, the notes and the time decide the entries
/// after and the three counts.
pub proof fn lemma_batch_deterministic<K: Fn(&Vec<u64>, &Vec<Vec<u64>>) -> Vec<u32>>(
    kernel: &K,
    f: spec_fn(Seq<u64>, Seq<Seq<u64>>) -> Seq<u32>,
    before: Seq<EntryView>,
    notes: Seq<NoteView>,
    now: i64,
    first: (Seq<EntryView>, int, int, int),
    second: (Seq<EntryView>, int, int, int),
)
    requires
        kernel_computes(kernel, f),
        batch_indexed(kernel, before, notes, now, first.0, first.1, first.2, first.3),
        batch_indexed(kernel, before, notes, now, second.0, second.1, second.2, second.3),
    ensures
        first == second,
    decreases notes.len(),
{
    if notes.len() > 0 {
        let (mid1, out1) = choose|mid: Seq<EntryView>, outcome: Result<bool, SearchError>| #[trigger]
            note_indexed(kernel, mid, notes.last(), now, first.0, outcome) && batch_indexed(
                kernel,
                before,
                notes.drop_last(),
                now,
                mid,
                first.1 - if outcome == Ok::<bool, SearchError>(true) {
                    1int
                } else {
                    0int
                },
                first.2 - if outcome == Ok::<bool, SearchError>(false) {
                    1int
                } else {
                    0int
                },
                first.3 - if outcome is Err {
                    1int
                } else {
                    0int
                },
            );
        let (mid2, out2) = choose|mid: Seq<EntryView>, outcome: Result<bool, SearchError>| #[trigger]
            note_indexed(kernel, mid, notes.last(), now, second.0, outcome) && batch_indexed(
                kernel,
                before,
                notes.drop_last(),
                now,
                mid,
                second.1 - if outcome == Ok::<bool, SearchError>(true) {
                    1int
                } else {
                    0int
                },
                second.2 - if outcome == Ok::<bool, SearchError>(false) {
                    1int
                } else {
                    0int
                },
                second.3 - if outcome is Err {
                    1int
                } else {
                    0int
                },
            );
        let t1 = (
            mid1,
            first.1 - if out1 == Ok::<bool, SearchError>(true) {
                1int
            } else {
                0int
            },
            first.2 - if out1 == Ok::<bool, SearchError>(false) {
                1int
            } else {
                0int
            },
            first.3 - if out1 is Err {
                1int
            } else {
                0int
            },
        );
        let t2 = (
            mid2,
            second.1 - if out2 == Ok::<bool, SearchError>(true) {
                1int
            } else {
                0int
            },
            second.2 - if out2 == Ok::<bool, SearchError>(false) {
                1int
            } else {
                0int
            },
            second.3 - if out2 is Err {
                1int
            } else {
                0int
            },
        );
        lemma_batch_deterministic(kernel, f, before, notes.drop_last(), now, t1, t2);
        lemma_note_indexed_deterministic(
            kernel,
            f,
            mid1,
            notes.last(),
            now,
            (first.0, out1),
            (second.0, out2),
        );
    }
}

} // verus!
