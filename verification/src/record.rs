//! The record that describes a note in the index.
use vstd::prelude::*;
use vstd::string::StringExecFns;
use crate::text::string_views;

verus! {

/// What the index knows of a note besides its embedding.
#[derive(Debug)]
pub struct NoteRecord {
    /// Identifier, unique within a store.
    pub id: String,
    /// Where the note is kept.
    pub path: String,
    pub title: String,
    /// Short summary; the text that is embedded.
    pub gist: Option<String>,
    /// Category label.
    pub note_type: Option<String>,
    pub status: Option<String>,
    pub area: Option<String>,
    /// Tags in the order given; repeats are allowed.
    pub tags: Vec<String>,
    /// Last modification, in seconds.
    pub mtime: i64,
}

/// A record as plain values.
pub struct NoteRecordView {
    pub id: Seq<char>,
    pub path: Seq<char>,
    pub title: Seq<char>,
    pub gist: Option<Seq<char>>,
    pub note_type: Option<Seq<char>>,
    pub status: Option<Seq<char>>,
    pub area: Option<Seq<char>>,
    pub tags: Seq<Seq<char>>,
    pub mtime: i64,
}

/// The view of an optional string.
pub open spec fn option_view(o: Option<String>) -> Option<Seq<char>> {
    match o {
        Some(s) => Some(s@),
        None => None,
    }
}

impl View for NoteRecord {
    type V = NoteRecordView;

    open spec fn view(&self) -> NoteRecordView {
        NoteRecordView {
            id: self.id@,
            path: self.path@,
            title: self.title@,
            gist: option_view(self.gist),
            note_type: option_view(self.note_type),
            status: option_view(self.status),
            area: option_view(self.area),
            tags: string_views(self.tags@),
            mtime: self.mtime,
        }
    }
}

/// A copy of an optional string.
pub fn clone_option(o: &Option<String>) -> (r: Option<String>)
    ensures
        option_view(r) == option_view(*o),
{
    match o {
        Some(s) => Some(s.clone()),
        None => None,
    }
}

/// An owned copy of an optional string slice.
pub fn own_option(o: Option<&str>) -> (r: Option<String>)
    ensures
        option_view(r) == match o {
            Some(s) => Some(s@),
            None => None,
        },
{
    match o {
        Some(s) => Some(String::from_str(s)),
        None => None,
    }
}

/// A copy of a list of strings.
pub fn clone_strings(v: &Vec<String>) -> (r: Vec<String>)
    ensures
        string_views(r@) == string_views(v@),
{
    let mut r: Vec<String> = Vec::new();
    let mut i: usize = 0;
    while i < v.len()
        invariant
            i <= v.len(),
            string_views(r@) == string_views(v@).take(i as int),
        decreases v.len() - i,
    {
        let s = v[i].clone();
        assert(string_views(r@.push(s)) == string_views(r@).push(s@));
        assert(string_views(v@).take(i + 1) == string_views(v@).take(i as int).push(v[i as int]@));
        r.push(s);
        i = i + 1;
    }
    assert(string_views(v@).take(v.len() as int) == string_views(v@));
    r
}

impl Clone for NoteRecord {
    fn clone(&self) -> (r: Self)
        ensures
            r@ == self@,
    {
        NoteRecord {
            id: self.id.clone(),
            path: self.path.clone(),
            title: self.title.clone(),
            gist: clone_option(&self.gist),
            note_type: clone_option(&self.note_type),
            status: clone_option(&self.status),
            area: clone_option(&self.area),
            tags: clone_strings(&self.tags),
            mtime: self.mtime,
        }
    }
}

} // verus!
