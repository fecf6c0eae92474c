//! What holds of every run, followed on the model disk.
//!
//! The laws speak of `Disk::run`, the run task by task. `drive_is_run` in
//! the model shows that the caller's loop around a `Linker` comes to the
//! same disk and the same outcomes.

use crate::ignore::{IgnoreView, within_any};
use crate::layout::{
    distinct_dests, entry_of, entry_well_formed, has_parent_before, listing_layout,
    listing_sources, parents_first, rooted, sources_within, well_formed, within_deeper,
};
use crate::linker::{Config, DestState, Failure, Outcome, wants_directory};
use crate::model::{
    Disk, Node, directories_kept, directories_kept_entries, effect, effect_frame, file_done, kept,
    made, same_at, work_is_effect,
};
use crate::paths::{is_name, joined, within, within_within};
use crate::task::{TaskKind, TaskView};
use crate::tree::{Entry, entry_tasks, listing_tasks, planned};
use vstd::prelude::*;

verus! {

/// Whether none of `outcomes` is a failure.
pub open spec fn all_well(outcomes: Seq<Outcome>) -> bool {
    forall|i: int| 0 <= i < outcomes.len() ==> !(#[trigger] outcomes[i]).failed()
}

/// A run from `from` on is the work on the task at `from`, then the run
/// from the next task on.
pub proof fn run_unfolds(disk: Disk, config: Config, tasks: Seq<TaskView>, from: int)
    requires
        0 <= from < tasks.len(),
    ensures
        disk.run_from(config, tasks, from).0 == effect(disk, config, tasks[from]).0.run_from(
            config,
            tasks,
            from + 1,
        ).0,
        disk.run_from(config, tasks, from).1 == seq![effect(disk, config, tasks[from]).1] + effect(
            disk,
            config,
            tasks[from],
        ).0.run_from(config, tasks, from + 1).1,
        disk.run_from(config, tasks, from).1.len() == tasks.len() - from,
    decreases tasks.len() - from,
{
    work_is_effect(disk, config, tasks[from]);
    if from + 1 < tasks.len() {
        run_unfolds(effect(disk, config, tasks[from]).0, config, tasks, from + 1);
    }
}

/// Whether `disk` holds what the task asks for: a directory where it wants
/// one, anything at all where it wants a file.
pub open spec fn satisfied(disk: Disk, task: TaskView) -> bool {
    match task.kind {
        TaskKind::Directory => disk.holds_directory(task.dest),
        TaskKind::File => disk.nodes.dom().contains(task.dest),
        _ => false,
    }
}

/// Without `force` a run takes nothing away, and every task that did not
/// fail is satisfied at the end.
proof fn run_settles(disk: Disk, config: Config, tasks: Seq<TaskView>, from: int)
    requires
        !config.force,
        0 <= from <= tasks.len(),
    ensures
        kept(disk, disk.run_from(config, tasks, from).0),
        disk.run_from(config, tasks, from).1.len() == tasks.len() - from,
        forall|k: int|
            #![trigger tasks[k]]
            from <= k < tasks.len() && !disk.run_from(config, tasks, from).1[k - from].failed()
                ==> satisfied(disk.run_from(config, tasks, from).0, tasks[k]),
    decreases tasks.len() - from,
{
    if from < tasks.len() {
        let (next, outcome) = effect(disk, config, tasks[from]);
        let (last, outcomes) = next.run_from(config, tasks, from + 1);
        run_unfolds(disk, config, tasks, from);
        effect_frame(disk, config, tasks[from]);
        run_settles(next, config, tasks, from + 1);
        assert(kept(disk, last)) by {
            assert forall|path: Seq<char>| #[trigger]
                disk.nodes.dom().contains(path) implies last.nodes.dom().contains(path)
                && last.nodes[path] == disk.nodes[path] by {
                assert(next.nodes.dom().contains(path));
            }
        }
        let all = disk.run_from(config, tasks, from).1;
        assert forall|k: int|
            #![trigger tasks[k]]
            from <= k < tasks.len() && !all[k - from].failed() implies satisfied(
            last,
            tasks[k],
        ) by {
            if k == from {
                assert(all[0] == outcome);
                assert(satisfied(next, tasks[k]));
                assert(next.nodes.dom().contains(tasks[k].dest));
            } else {
                assert(all[k - from] == outcomes[k - (from + 1)]);
            }
        }
    }
}

/// How a task ends that has nothing left to do: its directory is there,
/// or its destination is taken.
pub open spec fn at_rest(task: TaskView) -> Outcome {
    if task.kind == TaskKind::Directory {
        Outcome::DirectoryPresent
    } else {
        Outcome::Skipped
    }
}

/// Where every task is satisfied and `force` is off, a run changes nothing
/// and makes nothing: every task ends at rest.
proof fn run_rests(disk: Disk, config: Config, tasks: Seq<TaskView>, from: int)
    requires
        !config.force,
        0 <= from <= tasks.len(),
        forall|k: int| #![trigger tasks[k]] from <= k < tasks.len() ==> satisfied(disk, tasks[k]),
    ensures
        disk.run_from(config, tasks, from).0 == disk,
        disk.run_from(config, tasks, from).1.len() == tasks.len() - from,
        forall|k: int|
            #![trigger tasks[k]]
            from <= k < tasks.len() ==> disk.run_from(config, tasks, from).1[k - from] == at_rest(
                tasks[k],
            ),
    decreases tasks.len() - from,
{
    if from < tasks.len() {
        run_unfolds(disk, config, tasks, from);
        assert(satisfied(disk, tasks[from]));
        assert(effect(disk, config, tasks[from]) == (disk, at_rest(tasks[from])));
        run_rests(disk, config, tasks, from + 1);
        let all = disk.run_from(config, tasks, from).1;
        let behind = disk.run_from(config, tasks, from + 1).1;
        assert forall|k: int| #![trigger tasks[k]] from <= k < tasks.len() implies all[k - from]
            == at_rest(tasks[k]) by {
            if k > from {
                assert(all[k - from] == behind[k - (from + 1)]);
            }
        }
    }
}

/// Idempotence: when a run without `force` has ended with no failure, a
/// second run over the same tasks changes nothing on the disk, makes
/// nothing anew, and nothing fails in it: every directory is found present
/// and every file is skipped.
pub proof fn second_run_changes_nothing(disk: Disk, config: Config, tasks: Seq<TaskView>)
    requires
        !config.force,
        all_well(disk.run(config, tasks).1),
    ensures
        disk.run(config, tasks).0.run(config, tasks).0 == disk.run(config, tasks).0,
        all_well(disk.run(config, tasks).0.run(config, tasks).1),
        disk.run(config, tasks).0.run(config, tasks).1.len() == tasks.len(),
        forall|k: int|
            #![trigger tasks[k]]
            0 <= k < tasks.len() ==> disk.run(config, tasks).0.run(config, tasks).1[k] == at_rest(
                tasks[k],
            ),
{
    run_settles(disk, config, tasks, 0);
    let once = disk.run(config, tasks);
    assert forall|k: int| #![trigger tasks[k]] 0 <= k < tasks.len() implies satisfied(
        once.0,
        tasks[k],
    ) by {
        assert(!once.1[k].failed());
    }
    run_rests(once.0, config, tasks, 0);
    let twice = once.0.run(config, tasks);
    assert forall|k: int| 0 <= k < twice.1.len() implies !(#[trigger] twice.1[k]).failed() by {
        assert(twice.1[k] == at_rest(tasks[k]));
    }
}

/// Whether the run that led from `start` to `now` could have put `node`
/// where it is: a directory in either mode, a copy but no link in static
/// mode, and in link mode a link to a path within `source_root` but no
/// copy.
pub open spec fn fits_mode(config: Config, source_root: Seq<char>, node: Node) -> bool {
    match node {
        Node::Directory => true,
        Node::File { .. } => config.static_files,
        Node::Link { target } => !config.static_files && within(target, source_root),
    }
}

/// Whether everything that `now` holds was there in `start` already or
/// fits the mode.
pub open spec fn made_in_mode(start: Disk, now: Disk, config: Config, source_root: Seq<char>) -> bool {
    forall|path: Seq<char>| #[trigger]
        now.nodes.dom().contains(path) ==> (start.nodes.dom().contains(path) && start.nodes[path]
            == now.nodes[path]) || fits_mode(config, source_root, now.nodes[path])
}

proof fn run_in_mode(
    start: Disk,
    disk: Disk,
    config: Config,
    tasks: Seq<TaskView>,
    from: int,
    source_root: Seq<char>,
)
    requires
        0 <= from <= tasks.len(),
        sources_within(tasks, source_root),
        made_in_mode(start, disk, config, source_root),
    ensures
        made_in_mode(start, disk.run_from(config, tasks, from).0, config, source_root),
    decreases tasks.len() - from,
{
    if from < tasks.len() {
        let (next, outcome) = effect(disk, config, tasks[from]);
        run_unfolds(disk, config, tasks, from);
        effect_frame(disk, config, tasks[from]);
        assert(made_in_mode(start, next, config, source_root)) by {
            assert forall|path: Seq<char>| #[trigger]
                next.nodes.dom().contains(path) implies (start.nodes.dom().contains(path)
                && start.nodes[path] == next.nodes[path]) || fits_mode(
                config,
                source_root,
                next.nodes[path],
            ) by {
                if path != tasks[from].dest {
                    assert(same_at(disk, next, path));
                    assert(disk.nodes.dom().contains(path));
                } else if next != disk {
                    assert(within(tasks[from].source, source_root));
                } else {
                    assert(disk.nodes.dom().contains(path));
                }
            }
        }
        run_in_mode(start, next, config, tasks, from + 1, source_root);
    }
}

/// Link or copy, never both: whatever a run has put on the disk fits the
/// mode. With static mode on, nothing it made is a symbolic link. With
/// static mode off, nothing it made is a regular file, and every link it
/// made names a path within the source root.
pub proof fn run_keeps_to_mode(
    disk: Disk,
    config: Config,
    entries: Vec<Entry>,
    source_root: Seq<char>,
    dest_root: Seq<char>,
    ignore: IgnoreView,
)
    ensures
        made_in_mode(
            disk,
            disk.run(config, listing_tasks(entries, 0, source_root, dest_root, ignore)).0,
            config,
            source_root,
        ),
{
    let tasks = listing_tasks(entries, 0, source_root, dest_root, ignore);
    listing_sources(entries, 0, source_root, dest_root, ignore);
    run_in_mode(disk, disk, config, tasks, 0, source_root);
}

/// A run leaves alone every path that is no task's destination; it never
/// takes a directory away, and never changes what the source files hold.
proof fn run_frame(disk: Disk, config: Config, tasks: Seq<TaskView>, from: int)
    requires
        0 <= from <= tasks.len(),
    ensures
        disk.run_from(config, tasks, from).0.contents == disk.contents,
        directories_kept(disk, disk.run_from(config, tasks, from).0),
        forall|path: Seq<char>|
            (forall|j: int| #![trigger tasks[j]] from <= j < tasks.len() ==> tasks[j].dest != path)
                ==> #[trigger] same_at(disk, disk.run_from(config, tasks, from).0, path),
    decreases tasks.len() - from,
{
    if from < tasks.len() {
        let (next, outcome) = effect(disk, config, tasks[from]);
        let last = next.run_from(config, tasks, from + 1).0;
        run_unfolds(disk, config, tasks, from);
        effect_frame(disk, config, tasks[from]);
        run_frame(next, config, tasks, from + 1);
        assert forall|path: Seq<char>|
            (forall|j: int|
                #![trigger tasks[j]]
                from <= j < tasks.len() ==> tasks[j].dest != path) implies #[trigger] same_at(
            disk,
            last,
            path,
        ) by {
            assert(tasks[from].dest != path);
            assert(same_at(disk, next, path));
            assert(same_at(next, last, path));
        }
        assert(directories_kept(disk, last)) by {
            assert forall|path: Seq<char>| #[trigger]
                disk.holds_directory(path) implies last.holds_directory(path) by {
                assert(next.holds_directory(path));
            }
        }
    }
}

proof fn run_on_taken(disk: Disk, config: Config, tasks: Seq<TaskView>, from: int, k: int)
    requires
        0 <= from <= k < tasks.len(),
        distinct_dests(tasks),
        tasks[k].kind == TaskKind::File,
        disk.state(tasks[k].dest) == DestState::File,
        disk.in_directory(tasks[k].dest),
    ensures
        disk.run_from(config, tasks, from).1.len() == tasks.len() - from,
        config.force ==> {
            &&& disk.run_from(config, tasks, from).1[k - from] == file_done(config)
            &&& disk.run_from(config, tasks, from).0.nodes.dom().contains(tasks[k].dest)
            &&& disk.run_from(config, tasks, from).0.nodes[tasks[k].dest] == made(
                disk,
                config,
                tasks[k],
            )
        },
        !config.force ==> {
            &&& disk.run_from(config, tasks, from).1[k - from] == Outcome::Skipped
            &&& same_at(disk, disk.run_from(config, tasks, from).0, tasks[k].dest)
        },
    decreases k - from,
{
    let dest = tasks[k].dest;
    let (next, outcome) = effect(disk, config, tasks[from]);
    let (last, outcomes) = next.run_from(config, tasks, from + 1);
    run_unfolds(disk, config, tasks, from);
    effect_frame(disk, config, tasks[from]);
    let all = disk.run_from(config, tasks, from).1;
    if from == k {
        run_frame(next, config, tasks, from + 1);
        assert(forall|j: int| #![trigger tasks[j]] from + 1 <= j < tasks.len() ==> tasks[j].dest != dest);
        assert(same_at(next, last, dest));
        assert(all[0] == outcome);
    } else {
        assert(tasks[from].dest != dest);
        assert(same_at(disk, next, dest));
        directories_kept_entries(disk, next, dest);
        run_on_taken(next, config, tasks, from + 1, k);
        assert(all[k - from] == outcomes[k - (from + 1)]);
        assert(made(next, config, tasks[k]) == made(disk, config, tasks[k]));
    }
}

/// Force: where the destination of a file of the tree is taken by
/// something that is no directory, a run with `force` puts the link or the
/// copy in its place, and a run without `force` leaves it as it was and
/// counts the file as skipped, not as failed.
pub proof fn taken_destination(
    disk: Disk,
    config: Config,
    entries: Vec<Entry>,
    source_root: Seq<char>,
    dest_root: Seq<char>,
    ignore: IgnoreView,
    k: int,
)
    requires
        well_formed(entries),
        0 <= k < listing_tasks(entries, 0, source_root, dest_root, ignore).len(),
        listing_tasks(entries, 0, source_root, dest_root, ignore)[k].kind == TaskKind::File,
        disk.state(listing_tasks(entries, 0, source_root, dest_root, ignore)[k].dest)
            == DestState::File,
        disk.in_directory(listing_tasks(entries, 0, source_root, dest_root, ignore)[k].dest),
    ensures
        ({
            let tasks = listing_tasks(entries, 0, source_root, dest_root, ignore);
            let (after, outcomes) = disk.run(config, tasks);
            &&& outcomes.len() == tasks.len()
            &&& config.force ==> {
                &&& outcomes[k] == file_done(config)
                &&& after.nodes.dom().contains(tasks[k].dest)
                &&& after.nodes[tasks[k].dest] == made(disk, config, tasks[k])
            }
            &&& !config.force ==> {
                &&& outcomes[k] == Outcome::Skipped
                &&& same_at(disk, after, tasks[k].dest)
            }
        }),
{
    let tasks = listing_tasks(entries, 0, source_root, dest_root, ignore);
    listing_layout(entries, 0, source_root, dest_root, ignore);
    run_on_taken(disk, config, tasks, 0, k);
}

/// Whether `dest_root` is a directory with nothing in it: the disk holds
/// nothing that lies within it, but the directory itself.
pub open spec fn vacant(disk: Disk, dest_root: Seq<char>) -> bool {
    &&& disk.holds_directory(dest_root)
    &&& forall|path: Seq<char>|
        path != dest_root && #[trigger] within(path, dest_root) ==> !disk.nodes.dom().contains(
            path,
        )
}

/// What mirrors the task's source at its destination: a directory for a
/// directory, the link or the copy for a file.
pub open spec fn mirror(disk: Disk, config: Config, task: TaskView) -> Node {
    if task.kind == TaskKind::File {
        made(disk, config, task)
    } else {
        Node::Directory
    }
}

/// How a task ends where nothing is in its way.
pub open spec fn unhindered(config: Config, task: TaskView) -> Outcome {
    match task.kind {
        TaskKind::File => file_done(config),
        TaskKind::Directory => Outcome::DirectoryCreated,
        TaskKind::Unreadable => Outcome::Failed(Failure::ReadDirectory),
        TaskKind::Unsupported => Outcome::Failed(Failure::Unsupported),
    }
}

/// Whether `path` is the destination of one of the first `upto` tasks, the
/// unsupported ones apart.
pub open spec fn mirrored_path(tasks: Seq<TaskView>, upto: int, path: Seq<char>) -> bool {
    exists|j: int|
        0 <= j < upto && (#[trigger] tasks[j]).kind != TaskKind::Unsupported && tasks[j].dest
            == path
}

/// Whether `now` is `start` with the mirrors of the first `upto` tasks
/// added, and nothing else changed.
pub open spec fn mirrors(
    start: Disk,
    now: Disk,
    config: Config,
    tasks: Seq<TaskView>,
    upto: int,
) -> bool {
    &&& now.contents == start.contents
    &&& kept(start, now)
    &&& forall|j: int|
        #![trigger tasks[j]]
        0 <= j < upto && tasks[j].kind != TaskKind::Unsupported ==> now.nodes.dom().contains(
            tasks[j].dest,
        ) && now.nodes[tasks[j].dest] == mirror(start, config, tasks[j])
    &&& forall|path: Seq<char>| #[trigger]
        now.nodes.dom().contains(path) ==> start.nodes.dom().contains(path) || mirrored_path(
            tasks,
            upto,
            path,
        )
}

proof fn run_on_vacant(
    start: Disk,
    disk: Disk,
    config: Config,
    tasks: Seq<TaskView>,
    dest_root: Seq<char>,
    from: int,
)
    requires
        0 <= from <= tasks.len(),
        distinct_dests(tasks),
        parents_first(tasks, dest_root),
        start.holds_directory(dest_root),
        forall|k: int|
            #![trigger tasks[k]]
            0 <= k < tasks.len() ==> !start.nodes.dom().contains(tasks[k].dest),
        mirrors(start, disk, config, tasks, from),
    ensures
        mirrors(start, disk.run_from(config, tasks, from).0, config, tasks, tasks.len() as int),
        disk.run_from(config, tasks, from).1.len() == tasks.len() - from,
        forall|k: int|
            #![trigger tasks[k]]
            from <= k < tasks.len() ==> disk.run_from(config, tasks, from).1[k - from]
                == unhindered(config, tasks[k]),
    decreases tasks.len() - from,
{
    if from < tasks.len() {
        let task = tasks[from];
        let dest = task.dest;
        let (next, outcome) = effect(disk, config, task);
        let (last, outcomes) = next.run_from(config, tasks, from + 1);
        run_unfolds(disk, config, tasks, from);
        assert(!disk.nodes.dom().contains(dest)) by {
            if disk.nodes.dom().contains(dest) {
                assert(!start.nodes.dom().contains(tasks[from].dest));
                assert(mirrored_path(tasks, from, dest));
                let j = choose|j: int|
                    0 <= j < from && (#[trigger] tasks[j]).kind != TaskKind::Unsupported
                        && tasks[j].dest == dest;
                assert(tasks[j].dest != tasks[from].dest);
            }
        }
        assert(disk.in_directory(dest)) by {
            assert(entry_of(tasks[from].dest, dest_root) || has_parent_before(tasks, from));
            if entry_of(dest, dest_root) {
                let name = choose|name: Seq<char>|
                    is_name(name) && dest == #[trigger] joined(dest_root, name);
                assert(disk.holds_directory(dest_root));
                assert(dest == joined(dest_root, name));
            } else {
                let j = choose|j: int|
                    0 <= j < from && (#[trigger] tasks[j]).kind == TaskKind::Directory && entry_of(
                        tasks[from].dest,
                        tasks[j].dest,
                    );
                let name = choose|name: Seq<char>|
                    is_name(name) && dest == #[trigger] joined(tasks[j].dest, name);
                assert(disk.holds_directory(tasks[j].dest));
                assert(dest == joined(tasks[j].dest, name));
            }
        }
        assert(outcome == unhindered(config, task));
        assert(mirrors(start, next, config, tasks, from + 1)) by {
            assert forall|j: int|
                #![trigger tasks[j]]
                0 <= j < from + 1 && tasks[j].kind
                    != TaskKind::Unsupported implies next.nodes.dom().contains(tasks[j].dest)
                && next.nodes[tasks[j].dest] == mirror(start, config, tasks[j]) by {
                if j < from {
                    assert(tasks[j].dest != tasks[from].dest);
                }
            }
            assert forall|path: Seq<char>| #[trigger]
                next.nodes.dom().contains(path) implies start.nodes.dom().contains(path)
                || mirrored_path(tasks, from + 1, path) by {
                if path == dest && task.kind != TaskKind::Unsupported {
                    assert(tasks[from].dest == path);
                } else {
                    assert(disk.nodes.dom().contains(path));
                    if !start.nodes.dom().contains(path) {
                        let j = choose|j: int|
                            0 <= j < from && (#[trigger] tasks[j]).kind != TaskKind::Unsupported
                                && tasks[j].dest == path;
                        assert(tasks[j].dest == path);
                    }
                }
            }
            assert(kept(start, next)) by {
                assert forall|path: Seq<char>| #[trigger]
                    start.nodes.dom().contains(path) implies next.nodes.dom().contains(path)
                    && next.nodes[path] == start.nodes[path] by {
                    assert(!start.nodes.dom().contains(tasks[from].dest));
                }
            }
        }
        run_on_vacant(start, next, config, tasks, dest_root, from + 1);
        let all = disk.run_from(config, tasks, from).1;
        assert forall|k: int| #![trigger tasks[k]] from <= k < tasks.len() implies all[k - from]
            == unhindered(config, tasks[k]) by {
            if k > from {
                assert(all[k - from] == outcomes[k - (from + 1)]);
            }
        }
    }
}

/// A run into an empty destination: every task ends as it does where
/// nothing is in its way, so every file of the plan is linked or copied and
/// every directory made. At the end the disk holds, besides what it held
/// before, the mirror of each supported entry of the plan at its
/// destination, and nothing else.
pub proof fn empty_destination_is_filled(
    disk: Disk,
    config: Config,
    entries: Vec<Entry>,
    source_root: Seq<char>,
    dest_root: Seq<char>,
    ignore: IgnoreView,
)
    requires
        well_formed(entries),
        vacant(disk, dest_root),
    ensures
        ({
            let tasks = listing_tasks(entries, 0, source_root, dest_root, ignore);
            let (after, outcomes) = disk.run(config, tasks);
            &&& outcomes.len() == tasks.len()
            &&& forall|k: int|
                #![trigger tasks[k]]
                0 <= k < tasks.len() ==> outcomes[k] == unhindered(config, tasks[k])
            &&& mirrors(disk, after, config, tasks, tasks.len() as int)
        }),
{
    let tasks = listing_tasks(entries, 0, source_root, dest_root, ignore);
    listing_layout(entries, 0, source_root, dest_root, ignore);
    assert forall|k: int| #![trigger tasks[k]] 0 <= k < tasks.len() implies !disk.nodes.dom().contains(
        tasks[k].dest,
    ) by {
        assert(rooted(tasks[k].dest, entries, 0, dest_root));
        let at = choose|at: int|
            0 <= at < entries.len() && within(
                tasks[k].dest,
                joined(dest_root, (#[trigger] entries[at]).name()),
            );
        assert(entry_well_formed(entries[at]));
        within_deeper(tasks[k].dest, dest_root, entries[at].name());
    }
    run_on_vacant(disk, disk, config, tasks, dest_root, 0);
}

/// The ignore set that ignores nothing.
pub open spec fn nothing_ignored() -> IgnoreView {
    IgnoreView { files: Seq::empty(), dirs: Seq::empty() }
}

/// Whether the ignore set leaves the task's entry out.
pub open spec fn left_out(ignore: IgnoreView, task: TaskView) -> bool {
    ignore.skips(task.source, wants_directory(task.kind))
}

proof fn concat_contains(a: Seq<TaskView>, b: Seq<TaskView>, task: TaskView)
    ensures
        (a + b).contains(task) <==> a.contains(task) || b.contains(task),
{
    let all = a + b;
    if a.contains(task) {
        let i = choose|i: int| 0 <= i < a.len() && a[i] == task;
        assert(all[i] == task);
    }
    if b.contains(task) {
        let i = choose|i: int| 0 <= i < b.len() && b[i] == task;
        assert(all[a.len() + i] == task);
    }
    if all.contains(task) {
        let i = choose|i: int| 0 <= i < all.len() && all[i] == task;
        if i < a.len() {
            assert(a[i] == task);
        } else {
            assert(b[i - a.len()] == task);
        }
    }
}

proof fn covers_below(dirs: Seq<Seq<char>>, inner: Seq<char>, path: Seq<char>)
    requires
        within_any(dirs, inner),
        within(path, inner),
    ensures
        within_any(dirs, path),
{
    let i = choose|i: int| 0 <= i < dirs.len() && within(inner, #[trigger] dirs[i]);
    within_within(path, inner, dirs[i]);
}

proof fn entry_left_out(
    entry: Entry,
    source_dir: Seq<char>,
    dest_dir: Seq<char>,
    ignore: IgnoreView,
    task: TaskView,
)
    ensures
        entry_tasks(entry, source_dir, dest_dir, ignore).contains(task) <==> entry_tasks(
            entry,
            source_dir,
            dest_dir,
            nothing_ignored(),
        ).contains(task) && !left_out(ignore, task),
    decreases entry, 0nat,
{
    let none = nothing_ignored();
    let planned = entry_tasks(entry, source_dir, dest_dir, ignore);
    let full = entry_tasks(entry, source_dir, dest_dir, none);
    let source = joined(source_dir, entry.name());
    let dest = joined(dest_dir, entry.name());
    let own = seq![TaskView { kind: entry.kind(), source, dest }];
    assert(!none.skips(source, entry.is_directory()));
    assert(own.contains(task) <==> task == own[0]) by {
        if task == own[0] {
            assert(own[0] == task);
        }
    }
    match entry {
        Entry::Directory { name, children } => {
            let below = listing_tasks(children, 0, source, dest, ignore);
            let all_below = listing_tasks(children, 0, source, dest, none);
            assert(full == own + all_below);
            concat_contains(own, all_below, task);
            listing_left_out(children, 0, source, dest, ignore, task);
            if ignore.skips(source, true) {
                assert(planned.len() == 0);
                if all_below.contains(task) {
                    listing_sources(children, 0, source, dest, none);
                    let i = choose|i: int| 0 <= i < all_below.len() && all_below[i] == task;
                    assert(within(all_below[i].source, source));
                    covers_below(ignore.dirs, source, task.source);
                }
            } else {
                assert(planned == own + below);
                concat_contains(own, below, task);
            }
        },
        _ => {
            assert(full == own);
            if !ignore.skips(source, entry.is_directory()) {
                assert(planned == own);
            } else {
                assert(planned.len() == 0);
            }
        },
    }
}

proof fn listing_left_out(
    entries: Vec<Entry>,
    from: int,
    source_dir: Seq<char>,
    dest_dir: Seq<char>,
    ignore: IgnoreView,
    task: TaskView,
)
    requires
        0 <= from,
    ensures
        listing_tasks(entries, from, source_dir, dest_dir, ignore).contains(task) <==> listing_tasks(
            entries,
            from,
            source_dir,
            dest_dir,
            nothing_ignored(),
        ).contains(task) && !left_out(ignore, task),
    decreases entries, entries.len() - from,
{
    let none = nothing_ignored();
    if from < entries.len() {
        entry_left_out(entries[from], source_dir, dest_dir, ignore, task);
        listing_left_out(entries, from + 1, source_dir, dest_dir, ignore, task);
        concat_contains(
            entry_tasks(entries[from], source_dir, dest_dir, ignore),
            listing_tasks(entries, from + 1, source_dir, dest_dir, ignore),
            task,
        );
        concat_contains(
            entry_tasks(entries[from], source_dir, dest_dir, none),
            listing_tasks(entries, from + 1, source_dir, dest_dir, none),
            task,
        );
    }
}

/// Ignoring: the tasks of a plan are those of the plan that ignores
/// nothing, less the ones whose entry the ignore set leaves out. So a path
/// within an ignored directory has no task, and with that the directory's
/// whole subtree has none; and an entry that lies within no ignored
/// directory, and is no ignored file, has its task.
pub proof fn ignored_entries_have_no_task(
    entries: Vec<Entry>,
    source_root: Seq<char>,
    dest_root: Seq<char>,
    ignore: IgnoreView,
)
    ensures
        forall|task: TaskView|
            #![trigger listing_tasks(entries, 0, source_root, dest_root, ignore).contains(task)]
            listing_tasks(entries, 0, source_root, dest_root, ignore).contains(task)
                <==> listing_tasks(entries, 0, source_root, dest_root, nothing_ignored()).contains(
                task,
            ) && !left_out(ignore, task),
        forall|task: TaskView|
            #![trigger listing_tasks(entries, 0, source_root, dest_root, ignore).contains(task)]
            listing_tasks(entries, 0, source_root, dest_root, ignore).contains(task)
                ==> !within_any(ignore.dirs, task.source),
{
    assert forall|task: TaskView|
        #![trigger listing_tasks(entries, 0, source_root, dest_root, ignore).contains(task)]
        true implies (listing_tasks(entries, 0, source_root, dest_root, ignore).contains(task)
        <==> listing_tasks(entries, 0, source_root, dest_root, nothing_ignored()).contains(task)
        && !left_out(ignore, task)) by {
        listing_left_out(entries, 0, source_root, dest_root, ignore, task);
    }
}

/// A source root that cannot be listed: where the destination root is a
/// directory, the run leaves the disk as it was, and ends with the one
/// failure that the root could not be read.
pub proof fn unlisted_root_changes_nothing(
    disk: Disk,
    config: Config,
    source_root: Seq<char>,
    dest_root: Seq<char>,
    ignore: IgnoreView,
)
    requires
        disk.holds_directory(dest_root),
    ensures
        disk.run(config, planned(None, source_root, dest_root, ignore)).0 == disk,
        disk.run(config, planned(None, source_root, dest_root, ignore)).1 == seq![
            Outcome::Failed(Failure::ReadDirectory),
        ],
{
    let tasks = planned(None, source_root, dest_root, ignore);
    run_unfolds(disk, config, tasks, 0);
    assert(disk.run_from(config, tasks, 1).1 =~= Seq::empty());
    assert(disk.run(config, tasks).1 =~= seq![Outcome::Failed(Failure::ReadDirectory)]);
}

} // verus!
