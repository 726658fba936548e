//! The stored form of a store entry: the columns of one row.
//!
//! Tags are kept as one string, a JSON array; the embedding is kept as a
//! blob of little-endian bytes. Writing these columns to a file and reading
//! them back is left to the caller.
use vstd::prelude::*;
use crate::blob::{blob_of, blob_to_embedding, embedding_of, embedding_to_blob};
use crate::error::SearchError;
use crate::record::{clone_option, option_view, NoteRecord, NoteRecordView};
use crate::text::string_views;
use crate::vectordb::{meta_written, upserted, EntryView, StoreEntry, VectorDB};

verus! {

/// `serde_json::Error`, the failure that `serde_json` reports. Nothing is
/// known of what it holds; it is only told apart from success.
#[verifier::external_type_specification]
#[verifier::external_body]
pub struct ExJsonError(serde_json::Error);

/// The JSON text that `serde_json::to_string` writes for a list of strings,
/// or `None` where it reports an error.
pub uninterp spec fn json_of_tags(tags: Seq<Seq<char>>) -> Option<Seq<char>>;

/// The list of strings that `serde_json::from_str` reads from a JSON text,
/// or `None` where it reports an error.
pub uninterp spec fn tags_of_json(json: Seq<char>) -> Option<Seq<Seq<char>>>;

/// `serde_json::to_string` on a list of strings. Its outcome depends on the
/// strings alone and is given the name [`json_of_tags`]; nothing is claimed
/// of what the text looks like.
#[verifier::external_body]
fn tags_to_json(tags: &Vec<String>) -> (r: Result<String, serde_json::Error>)
    ensures
        match r {
            Ok(json) => json_of_tags(string_views(tags@)) == Some(json@),
            Err(_) => json_of_tags(string_views(tags@)) is None,
        },
{
    serde_json::to_string(tags)
}

/// `serde_json::from_str` into a list of strings. Its outcome depends on the
/// text alone and is given the name [`tags_of_json`]; nothing is claimed of
/// which texts are accepted.
#[verifier::external_body]
fn json_to_tags(json: &str) -> (r: Result<Vec<String>, serde_json::Error>)
    ensures
        match r {
            Ok(tags) => tags_of_json(json@) == Some(string_views(tags@)),
            Err(_) => tags_of_json(json@) is None,
        },
{
    serde_json::from_str(json)
}

/// One row: the columns of a note and of its embedding.
#[derive(Debug)]
pub struct StoredNote {
    pub id: String,
    pub path: String,
    pub title: String,
    pub gist: Option<String>,
    pub note_type: Option<String>,
    pub status: Option<String>,
    pub area: Option<String>,
    /// The tags as a JSON array.
    pub tags: String,
    pub mtime: i64,
    pub indexed_at: i64,
    /// The embedding, four little-endian bytes for each component.
    pub embedding: Vec<u8>,
}

/// A row as plain values.
pub struct StoredNoteView {
    pub id: Seq<char>,
    pub path: Seq<char>,
    pub title: Seq<char>,
    pub gist: Option<Seq<char>>,
    pub note_type: Option<Seq<char>>,
    pub status: Option<Seq<char>>,
    pub area: Option<Seq<char>>,
    pub tags: Seq<char>,
    pub mtime: i64,
    pub indexed_at: i64,
    pub embedding: Seq<u8>,
}

impl View for StoredNote {
    type V = StoredNoteView;

    open spec fn view(&self) -> StoredNoteView {
        StoredNoteView {
            id: self.id@,
            path: self.path@,
            title: self.title@,
            gist: option_view(self.gist),
            note_type: option_view(self.note_type),
            status: option_view(self.status),
            area: option_view(self.area),
            tags: self.tags@,
            mtime: self.mtime,
            indexed_at: self.indexed_at,
            embedding: self.embedding@,
        }
    }
}

/// The views of the rows in `v`.
pub open spec fn row_views(v: Seq<StoredNote>) -> Seq<StoredNoteView> {
    Seq::new(v.len(), |i: int| v[i]@)
}

/// The row that stores `entry`, given the JSON text `tags` of its tags.
pub open spec fn row_of(entry: EntryView, tags: Seq<char>) -> StoredNoteView {
    StoredNoteView {
        id: entry.record.id,
        path: entry.record.path,
        title: entry.record.title,
        gist: entry.record.gist,
        note_type: entry.record.note_type,
        status: entry.record.status,
        area: entry.record.area,
        tags,
        mtime: entry.record.mtime,
        indexed_at: entry.indexed_at,
        embedding: blob_of(entry.embedding),
    }
}

/// The entry that `row` stores, given the outcome `tags` of reading its tags
/// column. Tags that cannot be read count as no tags. Bytes of the embedding
/// that follow the last whole group of four are dropped.
pub open spec fn entry_of(row: StoredNoteView, tags: Option<Seq<Seq<char>>>) -> EntryView {
    EntryView {
        record: NoteRecordView {
            id: row.id,
            path: row.path,
            title: row.title,
            gist: row.gist,
            note_type: row.note_type,
            status: row.status,
            area: row.area,
            tags: match tags {
                Some(t) => t,
                None => Seq::empty(),
            },
            mtime: row.mtime,
        },
        embedding: embedding_of(row.embedding),
        indexed_at: row.indexed_at,
    }
}

/// The row that stores `entry`, or the failure to write its tags.
pub open spec fn encoded(entry: EntryView) -> Result<StoredNoteView, SearchError> {
    match json_of_tags(entry.record.tags) {
        Some(tags) => Ok(row_of(entry, tags)),
        None => Err(SearchError::TagsNotEncodable),
    }
}

/// The entry that `row` stores.
pub open spec fn decoded(row: StoredNoteView) -> EntryView {
    entry_of(row, tags_of_json(row.tags))
}

/// The entries of a store that was filled from `rows`, first row first: a
/// later row replaces an earlier one with the same identifier.
pub open spec fn loaded(rows: Seq<StoredNoteView>) -> Seq<EntryView>
    decreases rows.len(),
{
    if rows.len() == 0 {
        Seq::empty()
    } else {
        upserted(loaded(rows.drop_last()), decoded(rows.last()))
    }
}

/// The metadata of a store that was filled from `pairs`, first pair first:
/// a later pair replaces an earlier one with the same key.
pub open spec fn loaded_meta(pairs: Seq<(Seq<char>, Seq<char>)>) -> Seq<(Seq<char>, Seq<char>)>
    decreases pairs.len(),
{
    if pairs.len() == 0 {
        Seq::empty()
    } else {
        meta_written(loaded_meta(pairs.drop_last()), pairs.last().0, pairs.last().1)
    }
}

/// The view of the outcome of encoding.
pub open spec fn row_result_view(r: Result<StoredNote, SearchError>) -> Result<
    StoredNoteView,
    SearchError,
> {
    match r {
        Ok(row) => Ok(row@),
        Err(e) => Err(e),
    }
}

/// Puts an entry into its stored form. Fails where the tags cannot be
/// written as JSON.
pub fn encode_entry(entry: &StoreEntry) -> (r: Result<StoredNote, SearchError>)
    ensures
        row_result_view(r) == encoded(entry@),
{
    let tags = match tags_to_json(&entry.record.tags) {
        Ok(json) => json,
        Err(_) => {
            return Err(SearchError::TagsNotEncodable);
        },
    };
    Ok(
        StoredNote {
            id: entry.record.id.clone(),
            path: entry.record.path.clone(),
            title: entry.record.title.clone(),
            gist: clone_option(&entry.record.gist),
            note_type: clone_option(&entry.record.note_type),
            status: clone_option(&entry.record.status),
            area: clone_option(&entry.record.area),
            tags,
            mtime: entry.record.mtime,
            indexed_at: entry.indexed_at,
            embedding: embedding_to_blob(entry.embedding.as_slice()),
        },
    )
}

/// Reads an entry from its stored form. This never fails: tags that are not
/// a JSON array of strings are read as no tags, and an embedding whose
/// length is not a multiple of four loses its last bytes.
pub fn decode_row(row: &StoredNote) -> (entry: StoreEntry)
    ensures
        entry@ == decoded(row@),
{
    let tags = match json_to_tags(row.tags.as_str()) {
        Ok(tags) => tags,
        Err(_) => Vec::new(),
    };
    proof {
        assert(string_views(Seq::<String>::empty()) =~= Seq::<Seq<char>>::empty());
    }
    StoreEntry {
        record: NoteRecord {
            id: row.id.clone(),
            path: row.path.clone(),
            title: row.title.clone(),
            gist: clone_option(&row.gist),
            note_type: clone_option(&row.note_type),
            status: clone_option(&row.status),
            area: clone_option(&row.area),
            tags,
            mtime: row.mtime,
        },
        embedding: blob_to_embedding(row.embedding.as_slice()),
        indexed_at: row.indexed_at,
    }
}

/// A store filled from rows and metadata pairs, in the order given.
pub fn load_store(rows: &Vec<StoredNote>, meta: &Vec<(String, String)>) -> (db: VectorDB)
    ensures
        db.wf(),
        db@.entries == loaded(row_views(rows@)),
        db@.meta == loaded_meta(crate::vectordb::pair_views(meta@)),
{
    let mut db = VectorDB::open_in_memory();
    let mut i: usize = 0;
    proof {
        assert(row_views(rows@).take(0) =~= Seq::empty());
        assert(db@.entries =~= Seq::empty());
        assert(db@.meta =~= Seq::empty());
    }
    while i < rows.len()
        invariant
            i <= rows.len(),
            db.wf(),
            db@.entries == loaded(row_views(rows@).take(i as int)),
            db@.meta.len() == 0,
        decreases rows.len() - i,
    {
        let entry = decode_row(&rows[i]);
        proof {
            let next = row_views(rows@).take(i + 1);
            assert(next.drop_last() == row_views(rows@).take(i as int));
            assert(next.last() == rows[i as int]@);
        }
        db.put(entry);
        i = i + 1;
    }
    assert(row_views(rows@).take(rows.len() as int) == row_views(rows@));
    let ghost pairs = crate::vectordb::pair_views(meta@);
    let mut j: usize = 0;
    proof {
        assert(pairs.take(0) =~= Seq::empty());
        assert(db@.meta =~= Seq::empty());
    }
    while j < meta.len()
        invariant
            j <= meta.len(),
            pairs == crate::vectordb::pair_views(meta@),
            db.wf(),
            db@.entries == loaded(row_views(rows@)),
            db@.meta == loaded_meta(pairs.take(j as int)),
        decreases meta.len() - j,
    {
        proof {
            let next = pairs.take(j + 1);
            assert(next.drop_last() == pairs.take(j as int));
            assert(next.last() == (meta[j as int].0@, meta[j as int].1@));
        }
        db.set_meta(meta[j].0.as_str(), meta[j].1.as_str());
        j = j + 1;
    }
    assert(pairs.take(meta.len() as int) == pairs);
    db
}

/// The rows that store the entries of `db`, in the order of the store.
/// Fails at the first entry whose tags cannot be written.
pub fn store_rows(db: &VectorDB) -> (r: Result<Vec<StoredNote>, SearchError>)
    ensures
        match r {
            Ok(rows) => rows.len() == db@.entries.len() && forall|i: int|
                0 <= i < rows.len() ==> encoded(db@.entries[i]) == Ok::<StoredNoteView, SearchError>(
                    #[trigger] rows[i]@,
                ),
            Err(e) => exists|i: int|
                0 <= i < db@.entries.len() && #[trigger] encoded(db@.entries[i]) == Err::<
                    StoredNoteView,
                    SearchError,
                >(e),
        },
{
    let mut rows: Vec<StoredNote> = Vec::new();
    let mut i: usize = 0;
    while i < db.len()
        invariant
            i <= db@.entries.len(),
            rows.len() == i,
            forall|k: int|
                0 <= k < i ==> encoded(db@.entries[k]) == Ok::<StoredNoteView, SearchError>(
                    #[trigger] rows[k]@,
                ),
        decreases db@.entries.len() - i,
    {
        let entry = db.entry_at(i);
        match encode_entry(&entry) {
            Ok(row) => {
                rows.push(row);
            },
            Err(e) => {
                assert(encoded(db@.entries[i as int]) == Err::<StoredNoteView, SearchError>(e));
                return Err(e);
            },
        }
        i = i + 1;
    }
    Ok(rows)
}

/// The metadata pairs of `db`, in the order of the store.
pub fn store_meta(db: &VectorDB) -> (pairs: Vec<(String, String)>)
    ensures
        crate::vectordb::pair_views(pairs@) == db@.meta,
{
    let mut pairs: Vec<(String, String)> = Vec::new();
    let mut i: usize = 0;
    while i < db.meta_len()
        invariant
            i <= db@.meta.len(),
            crate::vectordb::pair_views(pairs@) == db@.meta.take(i as int),
        decreases db@.meta.len() - i,
    {
        let pair = db.meta_at(i);
        proof {
            assert(crate::vectordb::pair_views(pairs@.push(pair)) =~= crate::vectordb::pair_views(
                pairs@,
            ).push((pair.0@, pair.1@)));
            assert(db@.meta.take(i + 1) == db@.meta.take(i as int).push(db@.meta[i as int]));
        }
        pairs.push(pair);
        i = i + 1;
    }
    assert(db@.meta.take(db@.meta.len() as int) == db@.meta);
    pairs
}

} // verus!
