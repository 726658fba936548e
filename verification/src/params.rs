//! The parameters of the requests that a remote caller may make.
use vstd::prelude::*;
use crate::note::{Note, NoteView};
use crate::record::option_view;
use crate::text::same_text;

verus! {

/// How many results a search returns where the request names no number.
pub const DEFAULT_LIMIT: usize = 5;

/// The most results that a search returns.
pub const MAX_LIMIT: usize = 100;

/// How many notes a listing returns where the request names no number.
pub const DEFAULT_LIST_LIMIT: usize = 50;

/// The most notes that a listing returns.
pub const MAX_LIST_LIMIT: usize = 500;

/// The number of results to return for a request that asks for
/// `requested`: `fallback` where it asks for none, else what it asks for,
/// but no more than `most`.
pub open spec fn clamped(requested: usize, fallback: usize, most: usize) -> usize {
    if requested == 0 {
        fallback
    } else if requested > most {
        most
    } else {
        requested
    }
}

/// The number of results to return for a request that asks for `requested`.
pub fn clamp_limit(requested: usize, fallback: usize, most: usize) -> (limit: usize)
    ensures
        limit == clamped(requested, fallback, most),
{
    if requested == 0 {
        fallback
    } else if requested > most {
        most
    } else {
        requested
    }
}

/// How many results a search returns where the request names no number.
pub fn default_limit() -> (n: usize)
    ensures
        n == DEFAULT_LIMIT,
{
    DEFAULT_LIMIT
}

/// How many notes a listing returns where the request names no number.
pub fn default_list_limit() -> (n: usize)
    ensures
        n == DEFAULT_LIST_LIMIT,
{
    DEFAULT_LIST_LIMIT
}

/// A request to search.
#[derive(Debug)]
pub struct SearchParams {
    pub query: String,
    pub limit: usize,
}

impl SearchParams {
    /// The number of results to return: five where none is asked for, and
    /// never more than a hundred.
    pub fn effective_limit(&self) -> (limit: usize)
        ensures
            limit == clamped(self.limit, DEFAULT_LIMIT, MAX_LIMIT),
            1 <= limit <= MAX_LIMIT,
    {
        clamp_limit(self.limit, DEFAULT_LIMIT, MAX_LIMIT)
    }
}

/// A request for one note.
#[derive(Debug)]
pub struct GetNoteParams {
    pub note: String,
}

/// A request to list notes.
#[derive(Debug)]
pub struct ListNotesParams {
    pub note_type: Option<String>,
    pub area: Option<String>,
    pub limit: usize,
}

impl ListNotesParams {
    /// The number of notes to return: fifty where none is asked for, and
    /// never more than five hundred.
    pub fn effective_limit(&self) -> (limit: usize)
        ensures
            limit == clamped(self.limit, DEFAULT_LIST_LIMIT, MAX_LIST_LIMIT),
            1 <= limit <= MAX_LIST_LIMIT,
    {
        clamp_limit(self.limit, DEFAULT_LIST_LIMIT, MAX_LIST_LIMIT)
    }

    /// Whether `note` passes the filters: where a type is asked for, the
    /// note has that type; where an area is asked for, the note has that
    /// area.
    pub open spec fn admits_spec(&self, note: NoteView) -> bool {
        &&& (option_view(self.note_type) matches Some(t) ==> note.note_type() == Some(t))
        &&& (option_view(self.area) matches Some(a) ==> note.area() == Some(a))
    }

    /// Whether `note` passes the filters.
    pub fn admits(&self, note: &Note) -> (b: bool)
        ensures
            b == self.admits_spec(note@),
    {
        let type_ok = match &self.note_type {
            Some(t) => match note.note_type() {
                Some(nt) => same_text(nt, t.as_str()),
                None => false,
            },
            None => true,
        };
        let area_ok = match &self.area {
            Some(a) => match note.area() {
                Some(na) => same_text(na, a.as_str()),
                None => false,
            },
            None => true,
        };
        type_ok && area_ok
    }
}

/// A request for an audit.
#[derive(Debug)]
pub struct AuditParams {
    /// Check the schema and the links only.
    pub quick: bool,
    /// List every finding.
    pub verbose: bool,
}

} // verus!
