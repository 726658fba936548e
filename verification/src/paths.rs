//! Where the parts of a vault are kept.
//!
//! Paths are plain strings with `/` between their components.
use vstd::prelude::*;
use vstd::string::StringExecFns;
use crate::text::{chars_of, string_of};

verus! {

/// The path of `child` below `root`: `child` itself where `root` is empty,
/// else `root`, a `/` unless `root` already ends with one, and `child`.
pub open spec fn child_path(root: Seq<char>, child: Seq<char>) -> Seq<char> {
    if root.len() == 0 {
        child
    } else if root.last() == '/' {
        root + child
    } else {
        root + seq!['/'] + child
    }
}

/// The path of `child` below `root`.
pub fn join_path(root: &str, child: &str) -> (r: String)
    ensures
        r@ == child_path(root@, child@),
{
    let chars = chars_of(root);
    let n = chars.len();
    if n == 0 {
        String::from_str(child)
    } else if chars[n - 1] == '/' {
        String::from_str(root).concat(child)
    } else {
        proof {
            reveal_strlit("/");
            assert("/"@ =~= seq!['/']);
        }
        String::from_str(root).concat("/").concat(child)
    }
}

/// The folders and files of a vault.
pub struct VaultPaths {
    pub root: String,
    pub notes: String,
    pub projects: String,
    pub archive: String,
    pub system: String,
    pub dashboards: String,
    pub templates: String,
    pub attachments: String,
    pub opencode: String,
    pub inbox: String,
}

impl VaultPaths {
    /// Every path is the one that [`VaultPaths::from_root`] derives from the root.
    pub open spec fn rooted(&self) -> bool {
        &&& self.notes@ == child_path(self.root@, "Notes"@)
        &&& self.projects@ == child_path(self.root@, "Projects"@)
        &&& self.archive@ == child_path(self.root@, "Archive"@)
        &&& self.system@ == child_path(self.root@, "_system"@)
        &&& self.dashboards@ == child_path(self.root@, "_system/Dashboards"@)
        &&& self.templates@ == child_path(self.root@, "_system/Templates"@)
        &&& self.attachments@ == child_path(self.root@, "_system/Attachments"@)
        &&& self.opencode@ == child_path(self.root@, ".opencode"@)
        &&& self.inbox@ == child_path(self.root@, "inbox.md"@)
    }

    /// The layout of the vault kept at `root`.
    pub fn from_root(root: String) -> (paths: Self)
        ensures
            paths.root@ == root@,
            paths.rooted(),
    {
        let notes = join_path(root.as_str(), "Notes");
        let projects = join_path(root.as_str(), "Projects");
        let archive = join_path(root.as_str(), "Archive");
        let system = join_path(root.as_str(), "_system");
        let dashboards = join_path(root.as_str(), "_system/Dashboards");
        let templates = join_path(root.as_str(), "_system/Templates");
        let attachments = join_path(root.as_str(), "_system/Attachments");
        let opencode = join_path(root.as_str(), ".opencode");
        let inbox = join_path(root.as_str(), "inbox.md");
        VaultPaths {
            root,
            notes,
            projects,
            archive,
            system,
            dashboards,
            templates,
            attachments,
            opencode,
            inbox,
        }
    }

    /// The folders that hold notes: notes, projects, archive, in this order.
    pub fn content_dirs(&self) -> (dirs: Vec<&String>)
        ensures
            dirs@ == seq![&self.notes, &self.projects, &self.archive],
    {
        let mut dirs: Vec<&String> = Vec::new();
        dirs.push(&self.notes);
        dirs.push(&self.projects);
        dirs.push(&self.archive);
        assert(dirs@ =~= seq![&self.notes, &self.projects, &self.archive]);
        dirs
    }

    /// The folders that a vault must have, each with what it is for and
    /// whether it may hold folders of its own.
    pub fn required_folders(&self) -> (folders: Vec<(&String, &str, bool)>)
        ensures
            folders@.len() == 8,
            folders@[0] == (&self.notes, "All notes (note, term, log)", false),
            folders@[1] == (&self.projects, "Active projects", false),
            folders@[2] == (&self.archive, "Completed projects", false),
            folders@[3] == (&self.system, "System files", true),
            folders@[4] == (&self.dashboards, "Dataview queries", false),
            folders@[5] == (&self.templates, "Note templates", false),
            folders@[6] == (&self.attachments, "Media files", false),
            folders@[7] == (&self.opencode, "AI agent configuration", true),
    {
        let mut folders: Vec<(&String, &str, bool)> = Vec::new();
        folders.push((&self.notes, "All notes (note, term, log)", false));
        folders.push((&self.projects, "Active projects", false));
        folders.push((&self.archive, "Completed projects", false));
        folders.push((&self.system, "System files", true));
        folders.push((&self.dashboards, "Dataview queries", false));
        folders.push((&self.templates, "Note templates", false));
        folders.push((&self.attachments, "Media files", false));
        folders.push((&self.opencode, "AI agent configuration", true));
        folders
    }
}

} // verus!
