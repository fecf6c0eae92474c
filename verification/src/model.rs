//! A disk in the abstract, against which a run can be followed on paper.
//!
//! The model disk does what it is asked whenever that is possible: a new
//! entry is made where the path is free and lies in a directory that exists,
//! and what is no directory can be removed. Nothing else ever changes it.

use crate::linker::{
    ActionView, Config, DestState, Event, Failure, LinkerView, Outcome, Phase, Verdict,
    directory_ready, request, verdict,
};
use crate::paths::{is_name, joined};
use crate::task::{TaskKind, TaskView};
use vstd::prelude::*;

verus! {

/// What sits at a path.
pub enum Node {
    Directory,
    /// A regular file and the bytes it holds.
    File { bytes: Seq<u8> },
    /// A symbolic link and the path it names.
    Link { target: Seq<char> },
}

/// A disk: what sits at each path that holds anything, and, apart from
/// that, what each source file holds.
pub struct Disk {
    pub nodes: Map<Seq<char>, Node>,
    pub contents: Map<Seq<char>, Seq<u8>>,
}

impl Disk {
    /// What a look at `path` finds.
    pub open spec fn state(self, path: Seq<char>) -> DestState {
        if !self.nodes.dom().contains(path) {
            DestState::Absent
        } else if self.nodes[path] is Directory {
            DestState::Directory
        } else {
            DestState::File
        }
    }

    /// Whether a directory sits at `path`.
    pub open spec fn holds_directory(self, path: Seq<char>) -> bool {
        self.nodes.dom().contains(path) && self.nodes[path] is Directory
    }

    /// Whether `path` names an entry of a directory that exists.
    pub open spec fn in_directory(self, path: Seq<char>) -> bool {
        exists|dir: Seq<char>, name: Seq<char>|
            is_name(name) && self.holds_directory(dir) && path == #[trigger] joined(dir, name)
    }

    /// Whether a new entry can be made at `path`.
    pub open spec fn has_room(self, path: Seq<char>) -> bool {
        !self.nodes.dom().contains(path) && self.in_directory(path)
    }

    /// Whether what sits at `path` can be removed.
    pub open spec fn removable(self, path: Seq<char>) -> bool {
        self.nodes.dom().contains(path) && !(self.nodes[path] is Directory)
    }

    /// The disk with `node` at `path`.
    pub open spec fn with(self, path: Seq<char>, node: Node) -> Disk {
        Disk { nodes: self.nodes.insert(path, node), ..self }
    }

    /// The disk with nothing at `path`.
    pub open spec fn without(self, path: Seq<char>) -> Disk {
        Disk { nodes: self.nodes.remove(path), ..self }
    }

    /// The disk after the caller has tried `action` on it, and what the
    /// caller reports.
    pub open spec fn respond(self, action: ActionView) -> (Disk, Event) {
        match action {
            ActionView::Probe { dest } => (self, Event::Probed(self.state(dest))),
            ActionView::CreateDirectory { dest } => if self.has_room(dest) {
                (self.with(dest, Node::Directory), Event::Done(true))
            } else {
                (self, Event::Done(false))
            },
            ActionView::Remove { dest } => if self.removable(dest) {
                (self.without(dest), Event::Done(true))
            } else {
                (self, Event::Done(false))
            },
            ActionView::Symlink { source, dest } => if self.has_room(dest) {
                (self.with(dest, Node::Link { target: source }), Event::Done(true))
            } else {
                (self, Event::Done(false))
            },
            ActionView::Copy { source, dest } => if self.has_room(dest) {
                (self.with(dest, Node::File { bytes: self.contents[source] }), Event::Done(true))
            } else {
                (self, Event::Done(false))
            },
        }
    }

    /// The disk after the linker has dealt with `task` from `phase` on, and
    /// how the task ended: action and event in turn, until the task is
    /// closed.
    pub open spec fn work(self, config: Config, task: TaskView, phase: Phase) -> (Disk, Outcome)
        decreases phase.rounds_left(),
    {
        let (disk, event) = self.respond(request(config, task, phase));
        match verdict(config, task.kind, phase, event) {
            Verdict::Settled(outcome) => (disk, outcome),
            Verdict::Continue(next) => disk.work(config, task, next),
        }
    }

    /// The disk after the linker has dealt with the tasks from index `from`
    /// on, one after the other, and how each of them ended.
    pub open spec fn run_from(self, config: Config, tasks: Seq<TaskView>, from: int) -> (
        Disk,
        Seq<Outcome>,
    )
        decreases tasks.len() - from,
    {
        if 0 <= from < tasks.len() {
            let (disk, outcome) = self.work(config, tasks[from], Phase::Probing);
            let (last, outcomes) = disk.run_from(config, tasks, from + 1);
            (last, seq![outcome] + outcomes)
        } else {
            (self, Seq::empty())
        }
    }

    /// The disk after a whole run, and how each task ended.
    pub open spec fn run(self, config: Config, tasks: Seq<TaskView>) -> (Disk, Seq<Outcome>) {
        self.run_from(config, tasks, 0)
    }

    /// The disk and the linker after the caller's loop has come to its end:
    /// as long as the linker asks for something, the caller tries it on the
    /// disk and reports.
    pub open spec fn drive(self, linker: LinkerView) -> (Disk, LinkerView)
        decreases linker.tasks.len() - linker.outcomes.len(), linker.phase.rounds_left(),
        via Self::drive_terminates
    {
        match linker.pending() {
            None => (self, linker),
            Some(action) => {
                let (disk, event) = self.respond(action);
                disk.drive(linker.advance(event))
            },
        }
    }

    #[via_fn]
    proof fn drive_terminates(self, linker: LinkerView) {
        if let Some(action) = linker.pending() {
            let (disk, event) = self.respond(action);
            let next = linker.advance(event);
            match verdict(linker.config, linker.current().kind, linker.phase, event) {
                Verdict::Continue(phase) => {},
                Verdict::Settled(outcome) => {
                    let closed = LinkerView {
                        outcomes: linker.outcomes.push(outcome),
                        phase: Phase::Probing,
                        ..linker
                    };
                    skip_grows(closed);
                },
            }
        }
    }
}

/// Skipping closes tasks and changes nothing else.
pub proof fn skip_grows(linker: LinkerView)
    requires
        linker.outcomes.len() <= linker.tasks.len(),
    ensures
        linker.skip().tasks == linker.tasks,
        linker.skip().config == linker.config,
        linker.outcomes.len() <= linker.skip().outcomes.len() <= linker.tasks.len(),
        linker.outcomes.is_prefix_of(linker.skip().outcomes),
    decreases linker.tasks.len() - linker.outcomes.len(),
{
    if !linker.finished() && linker.current().kind == TaskKind::Unsupported {
        let next = LinkerView {
            outcomes: linker.outcomes.push(Outcome::Failed(Failure::Unsupported)),
            phase: Phase::Probing,
            ..linker
        };
        skip_grows(next);
        assert(linker.outcomes =~= next.outcomes.subrange(0, linker.outcomes.len() as int));
    }
}

/// What the linker puts at the destination of a file task: a copy of the
/// source file, or a link to it.
pub open spec fn made(disk: Disk, config: Config, task: TaskView) -> Node {
    if config.static_files {
        Node::File { bytes: disk.contents[task.source] }
    } else {
        Node::Link { target: task.source }
    }
}

/// How a file task ends when its destination has been made.
pub open spec fn file_done(config: Config) -> Outcome {
    if config.static_files {
        Outcome::Copied
    } else {
        Outcome::Linked
    }
}

/// What the work on one task comes to, case by case.
pub open spec fn effect(disk: Disk, config: Config, task: TaskView) -> (Disk, Outcome) {
    let dest = task.dest;
    match task.kind {
        TaskKind::Unsupported => (disk, Outcome::Failed(Failure::Unsupported)),
        TaskKind::Directory | TaskKind::Unreadable => match disk.state(dest) {
            DestState::Directory => (disk, directory_ready(task.kind, false)),
            DestState::File => (disk, Outcome::Failed(Failure::CreateDirectory)),
            DestState::Absent => if disk.in_directory(dest) {
                (disk.with(dest, Node::Directory), directory_ready(task.kind, true))
            } else {
                (disk, Outcome::Failed(Failure::CreateDirectory))
            },
        },
        TaskKind::File => match disk.state(dest) {
            DestState::Absent => if disk.in_directory(dest) {
                (disk.with(dest, made(disk, config, task)), file_done(config))
            } else {
                (disk, Outcome::Failed(Failure::Materialize))
            },
            DestState::File => if !config.force {
                (disk, Outcome::Skipped)
            } else if disk.in_directory(dest) {
                (disk.with(dest, made(disk, config, task)), file_done(config))
            } else {
                (disk.without(dest), Outcome::Failed(Failure::Materialize))
            },
            DestState::Directory => if config.force {
                (disk, Outcome::Failed(Failure::Occupied))
            } else {
                (disk, Outcome::Skipped)
            },
        },
    }
}

/// Taking away what is no directory leaves every directory in place.
pub proof fn removal_keeps_directories(disk: Disk, gone: Seq<char>, path: Seq<char>)
    requires
        disk.removable(gone),
    ensures
        disk.without(gone).in_directory(path) == disk.in_directory(path),
{
    let after = disk.without(gone);
    if disk.in_directory(path) {
        let (dir, name) = choose|dir: Seq<char>, name: Seq<char>|
            is_name(name) && disk.holds_directory(dir) && path == #[trigger] joined(dir, name);
        assert(after.holds_directory(dir));
        assert(path == joined(dir, name));
    }
    if after.in_directory(path) {
        let (dir, name) = choose|dir: Seq<char>, name: Seq<char>|
            is_name(name) && after.holds_directory(dir) && path == #[trigger] joined(dir, name);
        assert(disk.holds_directory(dir));
        assert(path == joined(dir, name));
    }
}

/// The work on a task comes to what `effect` says.
pub proof fn work_is_effect(disk: Disk, config: Config, task: TaskView)
    ensures
        disk.work(config, task, Phase::Probing) == effect(disk, config, task),
{
    reveal_with_fuel(Disk::work, 4);
    let dest = task.dest;
    if task.kind == TaskKind::File && disk.state(dest) == DestState::File && config.force {
        removal_keeps_directories(disk, dest, dest);
        let node = made(disk, config, task);
        assert(disk.without(dest).with(dest, node).nodes =~= disk.with(dest, node).nodes);
    }
}

/// Whether everything that `before` holds is still there in `after`,
/// unchanged.
pub open spec fn kept(before: Disk, after: Disk) -> bool {
    forall|path: Seq<char>| #[trigger]
        before.nodes.dom().contains(path) ==> after.nodes.dom().contains(path)
            && after.nodes[path] == before.nodes[path]
}

/// Whether `before` and `after` agree on `path`.
pub open spec fn same_at(before: Disk, after: Disk, path: Seq<char>) -> bool {
    before.nodes.dom().contains(path) == after.nodes.dom().contains(path) && (
    before.nodes.dom().contains(path) ==> after.nodes[path] == before.nodes[path])
}

/// Whether every directory of `before` is a directory of `after`.
pub open spec fn directories_kept(before: Disk, after: Disk) -> bool {
    forall|path: Seq<char>| #[trigger]
        before.holds_directory(path) ==> after.holds_directory(path)
}

/// Where the directories stay, what was an entry of one stays an entry of
/// one.
pub proof fn directories_kept_entries(before: Disk, after: Disk, path: Seq<char>)
    requires
        directories_kept(before, after),
        before.in_directory(path),
    ensures
        after.in_directory(path),
{
    let (dir, name) = choose|dir: Seq<char>, name: Seq<char>|
        is_name(name) && before.holds_directory(dir) && path == #[trigger] joined(dir, name);
    assert(after.holds_directory(dir));
    assert(path == joined(dir, name));
}

/// The work on a task touches its destination and nothing else, never
/// takes a directory away, and without `force` takes nothing away at all.
pub proof fn effect_frame(disk: Disk, config: Config, task: TaskView)
    ensures
        effect(disk, config, task).0.contents == disk.contents,
        forall|path: Seq<char>|
            path != task.dest ==> #[trigger] same_at(disk, effect(disk, config, task).0, path),
        directories_kept(disk, effect(disk, config, task).0),
        !config.force ==> kept(disk, effect(disk, config, task).0),
{
}

/// What is left of a run when the linker is in the middle of a task: the
/// rest of the work on that task, then the tasks behind it.
pub open spec fn remainder(disk: Disk, linker: LinkerView) -> (Disk, Seq<Outcome>) {
    if linker.finished() {
        (disk, Seq::empty())
    } else {
        let (next, outcome) = disk.work(linker.config, linker.current(), linker.phase);
        let (last, outcomes) = next.run_from(
            linker.config,
            linker.tasks,
            linker.outcomes.len() as int + 1,
        );
        (last, seq![outcome] + outcomes)
    }
}

/// Skipping the unsupported tasks in front is running them: each fails and
/// leaves the disk alone.
proof fn skip_is_run(disk: Disk, linker: LinkerView)
    requires
        linker.outcomes.len() <= linker.tasks.len(),
        linker.phase == Phase::Probing,
    ensures
        linker.skip().tasks == linker.tasks,
        linker.skip().config == linker.config,
        linker.skip().phase == Phase::Probing,
        linker.skip().outcomes.len() <= linker.tasks.len(),
        linker.skip().finished() || linker.skip().current().kind != TaskKind::Unsupported,
        disk.run_from(linker.config, linker.tasks, linker.skip().outcomes.len() as int).0
            == disk.run_from(linker.config, linker.tasks, linker.outcomes.len() as int).0,
        linker.skip().outcomes + disk.run_from(
            linker.config,
            linker.tasks,
            linker.skip().outcomes.len() as int,
        ).1 == linker.outcomes + disk.run_from(
            linker.config,
            linker.tasks,
            linker.outcomes.len() as int,
        ).1,
    decreases linker.tasks.len() - linker.outcomes.len(),
{
    if !linker.finished() && linker.current().kind == TaskKind::Unsupported {
        let failed = Outcome::Failed(Failure::Unsupported);
        let next = LinkerView { outcomes: linker.outcomes.push(failed), ..linker };
        skip_is_run(disk, next);
        work_is_effect(disk, linker.config, linker.current());
        let at = linker.outcomes.len() as int;
        let behind = disk.run_from(linker.config, linker.tasks, at + 1).1;
        assert(disk.run_from(linker.config, linker.tasks, at).1 == seq![failed] + behind);
        assert(next.outcomes + behind =~= linker.outcomes + (seq![failed] + behind));
    }
}

/// From a linker that is not waiting on an unsupported task, the caller's
/// loop comes to what is left of the run.
proof fn drive_is_remainder(disk: Disk, linker: LinkerView)
    requires
        linker.outcomes.len() <= linker.tasks.len(),
        linker.finished() || linker.current().kind != TaskKind::Unsupported,
    ensures
        disk.drive(linker).0 == remainder(disk, linker).0,
        disk.drive(linker).1.outcomes == linker.outcomes + remainder(disk, linker).1,
        disk.drive(linker).1.tasks == linker.tasks,
        disk.drive(linker).1.config == linker.config,
        disk.drive(linker).1.finished(),
    decreases linker.tasks.len() - linker.outcomes.len(), linker.phase.rounds_left(),
{
    if linker.finished() {
        assert(linker.outcomes + Seq::<Outcome>::empty() =~= linker.outcomes);
    } else {
        let config = linker.config;
        let tasks = linker.tasks;
        let at = linker.outcomes.len() as int;
        let action = request(config, linker.current(), linker.phase);
        let (next, event) = disk.respond(action);
        match verdict(config, linker.current().kind, linker.phase, event) {
            Verdict::Continue(phase) => {
                let on = LinkerView { phase, ..linker };
                assert(linker.advance(event) == on);
                assert(phase.rounds_left() < linker.phase.rounds_left());
                drive_is_remainder(next, on);
            },
            Verdict::Settled(outcome) => {
                let closed = LinkerView {
                    outcomes: linker.outcomes.push(outcome),
                    phase: Phase::Probing,
                    ..linker
                };
                let on = closed.skip();
                assert(linker.advance(event) == on);
                skip_is_run(next, closed);
                skip_grows(closed);
                drive_is_remainder(next, on);
                let behind = next.run_from(config, tasks, at + 1);
                assert(remainder(disk, linker) == (behind.0, seq![outcome] + behind.1));
                let to = on.outcomes.len() as int;
                assert(remainder(next, on) == next.run_from(config, tasks, to)) by {
                    if !on.finished() {
                        assert(on.current() == tasks[to]);
                    }
                }
                assert(on.outcomes + next.run_from(config, tasks, to).1 == closed.outcomes
                    + behind.1);
                assert(closed.outcomes + behind.1 =~= linker.outcomes + (seq![outcome]
                    + behind.1));
            },
        }
    }
}

/// The caller's loop, tried on the model disk, ends with every task closed,
/// and with the disk and the outcomes that `run` names.
pub proof fn drive_is_run(disk: Disk, config: Config, tasks: Seq<TaskView>)
    ensures
        disk.drive(LinkerView::initial(config, tasks)).0 == disk.run(config, tasks).0,
        disk.drive(LinkerView::initial(config, tasks)).1.outcomes == disk.run(config, tasks).1,
        disk.drive(LinkerView::initial(config, tasks)).1.finished(),
{
    let blank = LinkerView { config, tasks, outcomes: Seq::empty(), phase: Phase::Probing };
    let start = blank.skip();
    skip_is_run(disk, blank);
    drive_is_remainder(disk, start);
    let to = start.outcomes.len() as int;
    assert(remainder(disk, start) == disk.run_from(config, tasks, to)) by {
        if !start.finished() {
            assert(start.current() == tasks[to]);
        }
    }
    assert(blank.outcomes + disk.run_from(config, tasks, 0).1 =~= disk.run_from(config, tasks, 0).1);
}

} // verus!
