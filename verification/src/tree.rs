//! A source tree held in memory, and the tasks that mirroring it takes.

use crate::ignore::{IgnoreSet, IgnoreView};
use crate::paths::{join, joined};
use crate::task::{LinkTask, TaskKind, TaskView, task_views};
use vstd::prelude::*;
use vstd::string::*;

verus! {

/// One entry of a directory listing, with what lies below it.
#[derive(PartialEq, Eq, Debug)]
pub enum Entry {
    /// A regular file.
    File { name: String },
    /// A directory and its entries.
    Directory { name: String, children: Vec<Entry> },
    /// A directory whose entries could not be listed.
    Unreadable { name: String },
    /// Neither a directory nor a regular file.
    Other { name: String },
}

impl Entry {
    /// The entry's name within its directory.
    pub open spec fn name(self) -> Seq<char> {
        match self {
            Entry::File { name } => name@,
            Entry::Directory { name, .. } => name@,
            Entry::Unreadable { name } => name@,
            Entry::Other { name } => name@,
        }
    }

    /// The kind of task that the entry gives rise to.
    pub open spec fn kind(self) -> TaskKind {
        match self {
            Entry::File { .. } => TaskKind::File,
            Entry::Directory { .. } => TaskKind::Directory,
            Entry::Unreadable { .. } => TaskKind::Unreadable,
            Entry::Other { .. } => TaskKind::Unsupported,
        }
    }

    /// Whether the entry is a directory, listed or not.
    pub open spec fn is_directory(self) -> bool {
        self is Directory || self is Unreadable
    }
}

/// The tasks for `entry`, found in the source directory `source_dir` and
/// mirrored into `dest_dir`: none if the entry is ignored; else its own task,
/// followed, for a directory, by the tasks of what it holds.
pub open spec fn entry_tasks(
    entry: Entry,
    source_dir: Seq<char>,
    dest_dir: Seq<char>,
    ignore: IgnoreView,
) -> Seq<TaskView>
    decreases entry, 0nat,
{
    let source = joined(source_dir, entry.name());
    let dest = joined(dest_dir, entry.name());
    if ignore.skips(source, entry.is_directory()) {
        Seq::empty()
    } else {
        let own = seq![TaskView { kind: entry.kind(), source, dest }];
        match entry {
            Entry::Directory { name, children } => own + listing_tasks(
                children,
                0,
                source,
                dest,
                ignore,
            ),
            _ => own,
        }
    }
}

/// The tasks for the entries of a listing from index `from` on, in the order
/// of the listing.
pub open spec fn listing_tasks(
    entries: Vec<Entry>,
    from: int,
    source_dir: Seq<char>,
    dest_dir: Seq<char>,
    ignore: IgnoreView,
) -> Seq<TaskView>
    decreases entries, entries.len() - from,
{
    if 0 <= from < entries.len() {
        entry_tasks(entries[from], source_dir, dest_dir, ignore) + listing_tasks(
            entries,
            from + 1,
            source_dir,
            dest_dir,
            ignore,
        )
    } else {
        Seq::empty()
    }
}

/// The tasks of a whole run. Where the root itself could not be listed there
/// is one task, which records that.
pub open spec fn planned(
    listing: Option<Vec<Entry>>,
    source_root: Seq<char>,
    dest_root: Seq<char>,
    ignore: IgnoreView,
) -> Seq<TaskView> {
    match listing {
        Some(entries) => listing_tasks(entries, 0, source_root, dest_root, ignore),
        None => seq![TaskView { kind: TaskKind::Unreadable, source: source_root, dest: dest_root }],
    }
}

fn plan_entry(
    entry: &Entry,
    source_dir: &str,
    dest_dir: &str,
    ignore: &IgnoreSet,
    tasks: &mut Vec<LinkTask>,
)
    ensures
        task_views(final(tasks)@) == task_views(old(tasks)@) + entry_tasks(
            *entry,
            source_dir@,
            dest_dir@,
            ignore@,
        ),
    decreases entry, 0nat,
{
    let ghost before = task_views(tasks@);
    match entry {
        Entry::File { name } => {
            let source = join(source_dir, name.as_str());
            if !ignore.skips(&source, false) {
                let dest = join(dest_dir, name.as_str());
                tasks.push(LinkTask { kind: TaskKind::File, source, dest });
            }
        },
        Entry::Other { name } => {
            let source = join(source_dir, name.as_str());
            if !ignore.skips(&source, false) {
                let dest = join(dest_dir, name.as_str());
                tasks.push(LinkTask { kind: TaskKind::Unsupported, source, dest });
            }
        },
        Entry::Unreadable { name } => {
            let source = join(source_dir, name.as_str());
            if !ignore.skips(&source, true) {
                let dest = join(dest_dir, name.as_str());
                tasks.push(LinkTask { kind: TaskKind::Unreadable, source, dest });
            }
        },
        Entry::Directory { name, children } => {
            let source = join(source_dir, name.as_str());
            if !ignore.skips(&source, true) {
                let dest = join(dest_dir, name.as_str());
                tasks.push(
                    LinkTask { kind: TaskKind::Directory, source: source.clone(), dest: dest.clone() },
                );
                plan_listing(children, source.as_str(), dest.as_str(), ignore, tasks);
            }
        },
    }
    assert(task_views(tasks@) =~= before + entry_tasks(*entry, source_dir@, dest_dir@, ignore@));
}

fn plan_listing(
    entries: &Vec<Entry>,
    source_dir: &str,
    dest_dir: &str,
    ignore: &IgnoreSet,
    tasks: &mut Vec<LinkTask>,
)
    ensures
        task_views(final(tasks)@) == task_views(old(tasks)@) + listing_tasks(
            *entries,
            0,
            source_dir@,
            dest_dir@,
            ignore@,
        ),
    decreases entries, entries.len() + 1,
{
    let ghost before = task_views(tasks@);
    let mut i: usize = 0;
    while i < entries.len()
        invariant
            0 <= i <= entries.len(),
            task_views(tasks@) + listing_tasks(*entries, i as int, source_dir@, dest_dir@, ignore@)
                == before + listing_tasks(*entries, 0, source_dir@, dest_dir@, ignore@),
        decreases entries.len() - i,
    {
        let ghost sofar = task_views(tasks@);
        plan_entry(&entries[i], source_dir, dest_dir, ignore, tasks);
        assert(task_views(tasks@) + listing_tasks(
            *entries,
            i + 1,
            source_dir@,
            dest_dir@,
            ignore@,
        ) =~= sofar + listing_tasks(*entries, i as int, source_dir@, dest_dir@, ignore@));
        i += 1;
    }
    assert(task_views(tasks@) =~= before + listing_tasks(
        *entries,
        0,
        source_dir@,
        dest_dir@,
        ignore@,
    ));
}

/// Lays out a run: the tasks that mirror the listed source tree at
/// `source_root` under `dest_root`, every directory ahead of what it holds.
/// `listing` is `None` where the root itself could not be listed.
pub fn plan(
    listing: &Option<Vec<Entry>>,
    source_root: &str,
    dest_root: &str,
    ignore: &IgnoreSet,
) -> (tasks: Vec<LinkTask>)
    ensures
        task_views(tasks@) == planned(*listing, source_root@, dest_root@, ignore@),
{
    let mut tasks: Vec<LinkTask> = Vec::new();
    match listing {
        Some(entries) => {
            plan_listing(entries, source_root, dest_root, ignore, &mut tasks);
            assert(task_views(tasks@) =~= listing_tasks(
                *entries,
                0,
                source_root@,
                dest_root@,
                ignore@,
            ));
        },
        None => {
            tasks.push(
                LinkTask {
                    kind: TaskKind::Unreadable,
                    source: String::from_str(source_root),
                    dest: String::from_str(dest_root),
                },
            );
            assert(task_views(tasks@) =~= planned(*listing, source_root@, dest_root@, ignore@));
        },
    }
    tasks
}

} // verus!
