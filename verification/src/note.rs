//! A note of the vault, as read from its file.
use vstd::prelude::*;
use crate::frontmatter::{parsed, Frontmatter, FrontmatterView};
use crate::wikilink::{extract_wikilinks, links_of};
use crate::record::{clone_strings, option_view};
use crate::schema::{violation_views, SchemaViolation, ViolationView};
use crate::text::{same_text, string_views};

verus! {

/// A note: where it is kept, what it holds, and when it changed. Times are
/// in seconds.
pub struct Note {
    pub path: String,
    /// The name of the folder that holds the note's file.
    pub folder: String,
    /// The file's name without its extension; the note's identifier.
    pub name: String,
    pub content: String,
    pub frontmatter: Option<Frontmatter>,
    pub modified: i64,
    pub created: i64,
}

/// A note as plain values.
pub struct NoteView {
    pub path: Seq<char>,
    pub folder: Seq<char>,
    pub name: Seq<char>,
    pub content: Seq<char>,
    pub frontmatter: Option<FrontmatterView>,
    pub modified: i64,
    pub created: i64,
}

impl NoteView {
    pub open spec fn note_type(self) -> Option<Seq<char>> {
        match self.frontmatter {
            Some(fm) => fm.note_type,
            None => None,
        }
    }

    pub open spec fn status(self) -> Option<Seq<char>> {
        match self.frontmatter {
            Some(fm) => fm.status,
            None => None,
        }
    }

    pub open spec fn area(self) -> Option<Seq<char>> {
        match self.frontmatter {
            Some(fm) => fm.area,
            None => None,
        }
    }

    pub open spec fn gist(self) -> Option<Seq<char>> {
        match self.frontmatter {
            Some(fm) => fm.gist,
            None => None,
        }
    }

    pub open spec fn tags(self) -> Seq<Seq<char>> {
        match self.frontmatter {
            Some(fm) => fm.tags,
            None => Seq::empty(),
        }
    }

    /// The note has a summary, and it is not empty.
    pub open spec fn has_gist(self) -> bool {
        self.gist() matches Some(g) && g.len() > 0
    }

    /// The note lies in the folder that its type and status ask for:
    /// archived projects in `Archive`, other projects in `Projects`, notes,
    /// terms and logs in `Notes`. A note of another type, or of none, may lie
    /// anywhere.
    pub open spec fn folder_matches_type(self) -> bool {
        match self.note_type() {
            Some(t) => if t == "project"@ {
                if self.status() == Some("archived"@) {
                    self.folder == "Archive"@
                } else {
                    self.folder == "Projects"@
                }
            } else if t == "note"@ || t == "term"@ || t == "log"@ {
                self.folder == "Notes"@
            } else {
                true
            },
            None => true,
        }
    }
}

/// The view of an optional frontmatter.
pub open spec fn frontmatter_view(o: Option<Frontmatter>) -> Option<FrontmatterView> {
    match o {
        Some(fm) => Some(fm@),
        None => None,
    }
}

impl View for Note {
    type V = NoteView;

    open spec fn view(&self) -> NoteView {
        NoteView {
            path: self.path@,
            folder: self.folder@,
            name: self.name@,
            content: self.content@,
            frontmatter: frontmatter_view(self.frontmatter),
            modified: self.modified,
            created: self.created,
        }
    }
}

/// The views of the notes in `v`.
pub open spec fn note_views(v: Seq<Note>) -> Seq<NoteView> {
    Seq::new(v.len(), |i: int| v[i]@)
}

/// The view of an optional string slice.
pub open spec fn str_option_view(o: Option<&str>) -> Option<Seq<char>> {
    match o {
        Some(s) => Some(s@),
        None => None,
    }
}

impl Note {
    /// The note made of a file's path, the name of its folder, its name
    /// without extension, its text and its times. The frontmatter is read
    /// from the text.
    pub fn from_parts(
        path: String,
        folder: String,
        name: String,
        content: String,
        modified: i64,
        created: i64,
    ) -> (note: Note)
        ensures
            note@ == (NoteView {
                path: path@,
                folder: folder@,
                name: name@,
                content: content@,
                frontmatter: parsed(content@),
                modified,
                created,
            }),
    {
        let frontmatter = Frontmatter::parse(content.as_str());
        Note { path, folder, name, content, frontmatter, modified, created }
    }

    /// The targets of the links in the note's text.
    pub fn wikilinks(&self) -> (out: Vec<String>)
        ensures
            string_views(out@) == links_of(self@.content),
    {
        extract_wikilinks(self.content.as_str())
    }

    /// The name of the folder that holds the note.
    pub fn folder(&self) -> (r: &str)
        ensures
            r@ == self@.folder,
    {
        self.folder.as_str()
    }

    /// What is wrong with the note's frontmatter; a note without frontmatter
    /// has that one thing wrong.
    pub fn validate_schema(&self) -> (out: Vec<SchemaViolation>)
        ensures
            violation_views(out@) == match self@.frontmatter {
                Some(fm) => crate::frontmatter::violations(fm),
                None => seq![ViolationView::MissingFrontmatter],
            },
    {
        match &self.frontmatter {
            Some(fm) => fm.validate(),
            None => {
                let mut out: Vec<SchemaViolation> = Vec::new();
                out.push(SchemaViolation::MissingFrontmatter);
                assert(violation_views(out@) =~= seq![ViolationView::MissingFrontmatter]);
                out
            },
        }
    }

    /// The note's tags; none without frontmatter.
    pub fn tags(&self) -> (r: Vec<String>)
        ensures
            string_views(r@) == self@.tags(),
    {
        match &self.frontmatter {
            Some(fm) => clone_strings(&fm.tags),
            None => {
                let r: Vec<String> = Vec::new();
                assert(string_views(r@) =~= Seq::<Seq<char>>::empty());
                r
            },
        }
    }

    pub fn note_type(&self) -> (r: Option<&str>)
        ensures
            str_option_view(r) == self@.note_type(),
    {
        match &self.frontmatter {
            Some(fm) => match &fm.note_type {
                Some(s) => Some(s.as_str()),
                None => None,
            },
            None => None,
        }
    }

    pub fn status(&self) -> (r: Option<&str>)
        ensures
            str_option_view(r) == self@.status(),
    {
        match &self.frontmatter {
            Some(fm) => match &fm.status {
                Some(s) => Some(s.as_str()),
                None => None,
            },
            None => None,
        }
    }

    pub fn area(&self) -> (r: Option<&str>)
        ensures
            str_option_view(r) == self@.area(),
    {
        match &self.frontmatter {
            Some(fm) => match &fm.area {
                Some(s) => Some(s.as_str()),
                None => None,
            },
            None => None,
        }
    }

    pub fn gist(&self) -> (r: Option<&str>)
        ensures
            str_option_view(r) == self@.gist(),
    {
        match &self.frontmatter {
            Some(fm) => match &fm.gist {
                Some(s) => Some(s.as_str()),
                None => None,
            },
            None => None,
        }
    }

    /// Whether the note lies in the folder that its type and status ask for.
    pub fn check_folder_type_match(&self) -> (b: bool)
        ensures
            b == self@.folder_matches_type(),
    {
        let folder = self.folder();
        match self.note_type() {
            Some(t) => {
                if same_text(t, "project") {
                    let archived = match self.status() {
                        Some(s) => same_text(s, "archived"),
                        None => false,
                    };
                    if archived {
                        same_text(folder, "Archive")
                    } else {
                        same_text(folder, "Projects")
                    }
                } else if same_text(t, "note") || same_text(t, "term") || same_text(t, "log") {
                    same_text(folder, "Notes")
                } else {
                    true
                }
            },
            None => true,
        }
    }
}

} // verus!
