//! The ignore set: which entries of the source tree are left alone.
//!
//! Entries are named by their resolved absolute paths. A file of the set
//! excludes the file at exactly that path. A directory of the set excludes
//! itself and every path below it, component by component: its whole
//! subtree, and nothing beside it.

use crate::paths::{join, joined, lies_within, within};
use crate::text::{is_among, views};
use vstd::prelude::*;
use vstd::string::*;

verus! {

/// A line of the ignore file, resolved against the source tree.
#[derive(PartialEq, Eq, Debug)]
pub struct Resolved {
    /// The absolute path that the line stands for.
    pub path: String,
    /// Whether a directory is at that path.
    pub directory: bool,
}

/// The paths that a run leaves alone.
#[derive(PartialEq, Eq, Debug)]
pub struct IgnoreSet {
    /// Matched by equality, against entries that are no directories.
    pub files: Vec<String>,
    /// Matched against every entry: each excludes what lies within it.
    pub dirs: Vec<String>,
}

/// An `IgnoreSet` with its paths as sequences of characters.
pub struct IgnoreView {
    pub files: Seq<Seq<char>>,
    pub dirs: Seq<Seq<char>>,
}

impl View for IgnoreSet {
    type V = IgnoreView;

    open spec fn view(&self) -> IgnoreView {
        IgnoreView { files: views(self.files@), dirs: views(self.dirs@) }
    }
}

/// Whether `path` lies within one of `paths`: is one of them, or lies
/// below one of them.
pub open spec fn within_any(paths: Seq<Seq<char>>, path: Seq<char>) -> bool {
    exists|i: int| 0 <= i < paths.len() && within(path, #[trigger] paths[i])
}

impl IgnoreView {
    /// Whether an entry at `path` is left alone; `directory` says whether the
    /// entry is a directory.
    pub open spec fn skips(self, path: Seq<char>, directory: bool) -> bool {
        within_any(self.dirs, path) || (!directory && self.files.contains(path))
    }
}

/// The name of the file at the root of a source tree that lists what to
/// ignore, one path per line.
pub open spec fn sentinel() -> Seq<char> {
    ".dotzignore"@
}

/// The ignore set that `lines` makes under `root`: the ignore file itself,
/// then each line that resolved to a path within `root`, in order,
/// directories apart from the rest. A line that resolved to nothing, or to
/// a path outside the tree, adds nothing.
pub open spec fn ignore_set(root: Seq<char>, lines: Seq<Option<Resolved>>) -> IgnoreView
    decreases lines.len(),
{
    if lines.len() == 0 {
        IgnoreView { files: seq![joined(root, sentinel())], dirs: Seq::empty() }
    } else {
        let before = ignore_set(root, lines.drop_last());
        match lines.last() {
            None => before,
            Some(line) => if !within(line.path@, root) {
                before
            } else if line.directory {
                IgnoreView { dirs: before.dirs.push(line.path@), ..before }
            } else {
                IgnoreView { files: before.files.push(line.path@), ..before }
            },
        }
    }
}

/// Whether `path` lies within one of `paths`.
pub fn check_paths_contains_path(paths: &Vec<String>, path: &String) -> (found: bool)
    ensures
        found == within_any(views(paths@), path@),
{
    let mut i: usize = 0;
    while i < paths.len()
        invariant
            0 <= i <= paths.len(),
            forall|k: int| 0 <= k < i ==> !within(path@, #[trigger] views(paths@)[k]),
        decreases paths.len() - i,
    {
        if lies_within(path.as_str(), paths[i].as_str()) {
            assert(within(path@, views(paths@)[i as int]));
            return true;
        }
        i += 1;
    }
    false
}

/// Builds the ignore set of the source tree at `root`, which is given by
/// its resolved path. `lines` holds, for each name that the ignore file
/// lists, what it resolved to, or `None` where it names nothing that
/// exists. Such a line is passed over, and so is one that resolved to a
/// path outside the tree.
pub fn get_ignore_files(root: &str, lines: &Vec<Option<Resolved>>) -> (set: IgnoreSet)
    ensures
        set@ == ignore_set(root@, lines@),
{
    let mut files: Vec<String> = Vec::new();
    let mut dirs: Vec<String> = Vec::new();
    files.push(join(root, ".dotzignore"));
    assert(views(files@) =~= seq![joined(root@, sentinel())]);
    assert(views(dirs@) =~= Seq::empty());
    assert(lines@.take(0).len() == 0);
    let mut i: usize = 0;
    while i < lines.len()
        invariant
            0 <= i <= lines.len(),
            (IgnoreView { files: views(files@), dirs: views(dirs@) }) == ignore_set(
                root@,
                lines@.take(i as int),
            ),
        decreases lines.len() - i,
    {
        let ghost files_before = views(files@);
        let ghost dirs_before = views(dirs@);
        assert(lines@.take(i + 1).drop_last() =~= lines@.take(i as int));
        assert(lines@.take(i + 1).last() == lines@[i as int]);
        match &lines[i] {
            None => {},
            Some(resolved) => {
                if !lies_within(resolved.path.as_str(), root) {
                } else if resolved.directory {
                    dirs.push(resolved.path.clone());
                    assert(views(dirs@) =~= dirs_before.push(resolved.path@));
                } else {
                    files.push(resolved.path.clone());
                    assert(views(files@) =~= files_before.push(resolved.path@));
                }
            },
        }
        i += 1;
    }
    assert(lines@.take(i as int) =~= lines@);
    IgnoreSet { files, dirs }
}

impl IgnoreSet {
    /// Whether the entry at `path` is left alone; `directory` says whether
    /// the entry is a directory.
    pub fn skips(&self, path: &String, directory: bool) -> (skipped: bool)
        ensures
            skipped == self@.skips(path@, directory),
    {
        check_paths_contains_path(&self.dirs, path) || (!directory && is_among(path, &self.files))
    }
}

} // verus!
