//! The linker's decisions, one round at a time.
//!
//! The linker never touches a disk. For the task at hand it names one thing
//! to do, the caller does it and hands back what happened, and from that the
//! linker either names the next thing to do for the same task or closes the
//! task with an outcome and turns to the next one.

use crate::errors::{
    Errors, ErrorsView, could_not_create, could_not_read, error_views, failed_to_create,
};
use crate::task::{LinkTask, TaskKind, TaskView, task_views};
use vstd::prelude::*;
use vstd::string::*;

verus! {

/// How a run behaves.
#[derive(Clone, Copy, PartialEq, Eq, Structural, Debug)]
pub struct Config {
    /// Replace what already sits at a destination path.
    pub force: bool,
    /// Tell the user about every step.
    pub verbose: bool,
    /// Copy files instead of linking them.
    pub static_files: bool,
}

/// What a look at a destination path found.
#[derive(Clone, Copy, PartialEq, Eq, Structural, Debug)]
pub enum DestState {
    /// Nothing is there.
    Absent,
    /// Something other than a directory is there.
    File,
    /// A directory is there.
    Directory,
}

/// What the caller hands back after doing what it was asked.
#[derive(Clone, Copy, PartialEq, Eq, Structural, Debug)]
pub enum Event {
    /// The answer to `Action::Probe`.
    Probed(DestState),
    /// The answer to every other action: whether it succeeded.
    Done(bool),
}

/// Which answer the linker is waiting for.
#[derive(Clone, Copy, PartialEq, Eq, Structural, Debug)]
pub enum Phase {
    /// For what a look at the destination finds.
    Probing,
    /// For the destination directory to be made.
    Creating,
    /// For what sits at the destination to be removed.
    Removing,
    /// For the link or the copy to be made.
    Materializing,
}

impl Phase {
    /// How many rounds a task can still take from this phase on, at most.
    pub open spec fn rounds_left(self) -> nat {
        match self {
            Phase::Probing => 3,
            Phase::Removing => 2,
            Phase::Creating => 1,
            Phase::Materializing => 1,
        }
    }
}

/// Why an entry failed.
#[derive(Clone, Copy, PartialEq, Eq, Structural, Debug)]
pub enum Failure {
    /// The destination directory could not be created.
    CreateDirectory,
    /// The source directory could not be listed.
    ReadDirectory,
    /// A directory sits where the file should go.
    Occupied,
    /// What sat at the destination could not be removed.
    Remove,
    /// The link or the copy could not be made.
    Materialize,
    /// The entry is neither a directory nor a regular file.
    Unsupported,
    /// The caller answered an action with the wrong kind of event.
    Unexpected,
}

/// How the work on one entry ended.
#[derive(Clone, Copy, PartialEq, Eq, Structural, Debug)]
pub enum Outcome {
    /// The destination directory was created.
    DirectoryCreated,
    /// The destination directory was there already.
    DirectoryPresent,
    /// A symbolic link to the source file was made.
    Linked,
    /// The source file was copied.
    Copied,
    /// The destination was taken and left as it was.
    Skipped,
    /// The entry could not be mirrored.
    Failed(Failure),
}

impl Outcome {
    /// Whether the outcome is a failure.
    pub open spec fn failed(self) -> bool {
        self is Failed
    }

    /// Whether the outcome is a failure.
    pub fn is_failure(&self) -> (r: bool)
        ensures
            r == self.failed(),
    {
        match self {
            Outcome::Failed(_) => true,
            _ => false,
        }
    }
}

/// What the linker decides when an event comes in: go on with the same
/// entry, or close it.
#[derive(Clone, Copy, PartialEq, Eq, Structural, Debug)]
pub enum Verdict {
    /// Go on with the same entry, in the phase given.
    Continue(Phase),
    /// Close the entry with the outcome given.
    Settled(Outcome),
}

/// One thing for the caller to do.
#[derive(PartialEq, Eq, Debug)]
pub enum Action {
    /// Look at what sits at `dest`, without following a link there.
    Probe { dest: String },
    /// Create the directory `dest`.
    CreateDirectory { dest: String },
    /// Remove the non-directory at `dest`.
    Remove { dest: String },
    /// Make `dest` a symbolic link to `source`.
    Symlink { source: String, dest: String },
    /// Copy the bytes of `source` to the new file `dest`.
    Copy { source: String, dest: String },
}

/// An `Action` with its paths as sequences of characters.
pub enum ActionView {
    Probe { dest: Seq<char> },
    CreateDirectory { dest: Seq<char> },
    Remove { dest: Seq<char> },
    Symlink { source: Seq<char>, dest: Seq<char> },
    Copy { source: Seq<char>, dest: Seq<char> },
}

impl View for Action {
    type V = ActionView;

    open spec fn view(&self) -> ActionView {
        match self {
            Action::Probe { dest } => ActionView::Probe { dest: dest@ },
            Action::CreateDirectory { dest } => ActionView::CreateDirectory { dest: dest@ },
            Action::Remove { dest } => ActionView::Remove { dest: dest@ },
            Action::Symlink { source, dest } => ActionView::Symlink {
                source: source@,
                dest: dest@,
            },
            Action::Copy { source, dest } => ActionView::Copy { source: source@, dest: dest@ },
        }
    }
}

/// The view of an action that may not be there.
pub open spec fn action_view(action: Option<Action>) -> Option<ActionView> {
    match action {
        Some(action) => Some(action@),
        None => None,
    }
}

/// Whether a task of this kind asks for a directory at its destination.
pub open spec fn wants_directory(kind: TaskKind) -> bool {
    kind == TaskKind::Directory || kind == TaskKind::Unreadable
}

/// How a directory task ends once its destination directory stands: a
/// directory that could not be listed has failed all the same.
pub open spec fn directory_ready(kind: TaskKind, fresh: bool) -> Outcome {
    if kind == TaskKind::Unreadable {
        Outcome::Failed(Failure::ReadDirectory)
    } else if fresh {
        Outcome::DirectoryCreated
    } else {
        Outcome::DirectoryPresent
    }
}

/// The decision after a look at the destination.
///
/// A directory task is content with a directory, creates one where nothing
/// is, and fails on anything else. A file task materializes where nothing is.
/// Where something is, it leaves it alone without `force`; with `force` it
/// removes it first, unless it is a directory, which is never removed.
pub open spec fn after_probe(config: Config, kind: TaskKind, found: DestState) -> Verdict {
    match kind {
        TaskKind::Directory | TaskKind::Unreadable => match found {
            DestState::Directory => Verdict::Settled(directory_ready(kind, false)),
            DestState::Absent => Verdict::Continue(Phase::Creating),
            DestState::File => Verdict::Settled(Outcome::Failed(Failure::CreateDirectory)),
        },
        TaskKind::File => match found {
            DestState::Absent => Verdict::Continue(Phase::Materializing),
            DestState::File => if config.force {
                Verdict::Continue(Phase::Removing)
            } else {
                Verdict::Settled(Outcome::Skipped)
            },
            DestState::Directory => if config.force {
                Verdict::Settled(Outcome::Failed(Failure::Occupied))
            } else {
                Verdict::Settled(Outcome::Skipped)
            },
        },
        TaskKind::Unsupported => Verdict::Settled(Outcome::Failed(Failure::Unsupported)),
    }
}

/// The decision after the caller has tried to change the disk: `ok` says
/// whether it could. A phase that a task of this kind never comes to closes
/// the task as failed.
pub open spec fn after_done(config: Config, kind: TaskKind, phase: Phase, ok: bool) -> Verdict {
    match (kind, phase) {
        (TaskKind::Directory, Phase::Creating) | (TaskKind::Unreadable, Phase::Creating) => if ok {
            Verdict::Settled(directory_ready(kind, true))
        } else {
            Verdict::Settled(Outcome::Failed(Failure::CreateDirectory))
        },
        (TaskKind::File, Phase::Removing) => if ok {
            Verdict::Continue(Phase::Materializing)
        } else {
            Verdict::Settled(Outcome::Failed(Failure::Remove))
        },
        (TaskKind::File, Phase::Materializing) => if !ok {
            Verdict::Settled(Outcome::Failed(Failure::Materialize))
        } else if config.static_files {
            Verdict::Settled(Outcome::Copied)
        } else {
            Verdict::Settled(Outcome::Linked)
        },
        _ => Verdict::Settled(Outcome::Failed(Failure::Unexpected)),
    }
}

/// The decision on an event, for a task of kind `kind` in phase `phase`. An
/// unsupported entry fails whatever comes in; for the others, an event that
/// does not answer the pending action closes the task as failed.
pub open spec fn verdict(config: Config, kind: TaskKind, phase: Phase, event: Event) -> Verdict {
    if kind == TaskKind::Unsupported {
        Verdict::Settled(Outcome::Failed(Failure::Unsupported))
    } else {
        match (phase, event) {
            (Phase::Probing, Event::Probed(found)) => after_probe(config, kind, found),
            (Phase::Probing, Event::Done(_)) => Verdict::Settled(
                Outcome::Failed(Failure::Unexpected),
            ),
            (_, Event::Probed(_)) => Verdict::Settled(Outcome::Failed(Failure::Unexpected)),
            (_, Event::Done(ok)) => after_done(config, kind, phase, ok),
        }
    }
}

/// The action that a task in phase `phase` is waiting on.
pub open spec fn request(config: Config, task: TaskView, phase: Phase) -> ActionView {
    match phase {
        Phase::Probing => ActionView::Probe { dest: task.dest },
        Phase::Creating => ActionView::CreateDirectory { dest: task.dest },
        Phase::Removing => ActionView::Remove { dest: task.dest },
        Phase::Materializing => if config.static_files {
            ActionView::Copy { source: task.source, dest: task.dest }
        } else {
            ActionView::Symlink { source: task.source, dest: task.dest }
        },
    }
}

/// Decides on an event; see `verdict`.
pub fn react(config: Config, kind: TaskKind, phase: Phase, event: Event) -> (v: Verdict)
    ensures
        v == verdict(config, kind, phase, event),
{
    let ready = match kind {
        TaskKind::Unreadable => Outcome::Failed(Failure::ReadDirectory),
        _ => Outcome::DirectoryPresent,
    };
    let fresh = match kind {
        TaskKind::Unreadable => Outcome::Failed(Failure::ReadDirectory),
        _ => Outcome::DirectoryCreated,
    };
    match kind {
        TaskKind::Unsupported => Verdict::Settled(Outcome::Failed(Failure::Unsupported)),
        TaskKind::Directory | TaskKind::Unreadable => match (phase, event) {
            (Phase::Probing, Event::Probed(DestState::Directory)) => Verdict::Settled(ready),
            (Phase::Probing, Event::Probed(DestState::Absent)) => Verdict::Continue(
                Phase::Creating,
            ),
            (Phase::Probing, Event::Probed(DestState::File)) => Verdict::Settled(
                Outcome::Failed(Failure::CreateDirectory),
            ),
            (Phase::Creating, Event::Done(true)) => Verdict::Settled(fresh),
            (Phase::Creating, Event::Done(false)) => Verdict::Settled(
                Outcome::Failed(Failure::CreateDirectory),
            ),
            _ => Verdict::Settled(Outcome::Failed(Failure::Unexpected)),
        },
        TaskKind::File => match (phase, event) {
            (Phase::Probing, Event::Probed(DestState::Absent)) => Verdict::Continue(
                Phase::Materializing,
            ),
            (Phase::Probing, Event::Probed(found)) => if !config.force {
                Verdict::Settled(Outcome::Skipped)
            } else {
                match found {
                    DestState::Directory => Verdict::Settled(Outcome::Failed(Failure::Occupied)),
                    _ => Verdict::Continue(Phase::Removing),
                }
            },
            (Phase::Removing, Event::Done(true)) => Verdict::Continue(Phase::Materializing),
            (Phase::Removing, Event::Done(false)) => Verdict::Settled(
                Outcome::Failed(Failure::Remove),
            ),
            (Phase::Materializing, Event::Done(true)) => if config.static_files {
                Verdict::Settled(Outcome::Copied)
            } else {
                Verdict::Settled(Outcome::Linked)
            },
            (Phase::Materializing, Event::Done(false)) => Verdict::Settled(
                Outcome::Failed(Failure::Materialize),
            ),
            _ => Verdict::Settled(Outcome::Failed(Failure::Unexpected)),
        },
    }
}

/// The linker's state as plain values.
pub struct LinkerView {
    pub config: Config,
    pub tasks: Seq<TaskView>,
    /// How the tasks before the current one ended; its length is the index
    /// of the current task.
    pub outcomes: Seq<Outcome>,
    /// What the current task is waiting for.
    pub phase: Phase,
}

impl LinkerView {
    /// Whether every task has an outcome.
    pub open spec fn finished(self) -> bool {
        self.outcomes.len() >= self.tasks.len()
    }

    /// The task at hand.
    pub open spec fn current(self) -> TaskView {
        self.tasks[self.outcomes.len() as int]
    }

    /// Closes the unsupported tasks that stand in front, each as failed: they
    /// ask nothing of the caller.
    pub open spec fn skip(self) -> LinkerView
        decreases self.tasks.len() - self.outcomes.len(),
    {
        if !self.finished() && self.current().kind == TaskKind::Unsupported {
            LinkerView {
                outcomes: self.outcomes.push(Outcome::Failed(Failure::Unsupported)),
                phase: Phase::Probing,
                ..self
            }.skip()
        } else {
            self
        }
    }

    /// The state before the first action.
    pub open spec fn initial(config: Config, tasks: Seq<TaskView>) -> LinkerView {
        LinkerView { config, tasks, outcomes: Seq::empty(), phase: Phase::Probing }.skip()
    }

    /// What the caller is asked to do next, if anything is left to do.
    pub open spec fn pending(self) -> Option<ActionView> {
        if self.finished() {
            None
        } else {
            Some(request(self.config, self.current(), self.phase))
        }
    }

    /// The state after `event` has come in.
    pub open spec fn advance(self, event: Event) -> LinkerView {
        if self.finished() {
            self
        } else {
            match verdict(self.config, self.current().kind, self.phase, event) {
                Verdict::Continue(phase) => LinkerView { phase, ..self },
                Verdict::Settled(outcome) => LinkerView {
                    outcomes: self.outcomes.push(outcome),
                    phase: Phase::Probing,
                    ..self
                }.skip(),
            }
        }
    }

    /// Whether the run is over and no entry has failed.
    pub open spec fn succeeded(self) -> bool {
        self.finished() && forall|i: int| 0 <= i < self.outcomes.len() ==> !self.outcomes[i].failed()
    }
}

/// The linker: the tasks of one run, and how far the run has come.
pub struct Linker {
    config: Config,
    tasks: Vec<LinkTask>,
    outcomes: Vec<Outcome>,
    phase: Phase,
}

impl View for Linker {
    type V = LinkerView;

    closed spec fn view(&self) -> LinkerView {
        LinkerView {
            config: self.config,
            tasks: task_views(self.tasks@),
            outcomes: self.outcomes@,
            phase: self.phase,
        }
    }
}

impl Linker {
    /// A linker that is about to start on `tasks`.
    pub fn new(config: Config, tasks: Vec<LinkTask>) -> (linker: Linker)
        ensures
            linker@ == LinkerView::initial(config, task_views(tasks@)),
    {
        let mut linker = Linker { config, tasks, outcomes: Vec::new(), phase: Phase::Probing };
        linker.skip();
        linker
    }

    fn skip(&mut self)
        ensures
            final(self)@ == old(self)@.skip(),
    {
        while self.outcomes.len() < self.tasks.len() && self.tasks[self.outcomes.len()].kind
            == TaskKind::Unsupported
            invariant
                self@.skip() == old(self)@.skip(),
            decreases self.tasks.len() - self.outcomes.len(),
        {
            self.outcomes.push(Outcome::Failed(Failure::Unsupported));
            self.phase = Phase::Probing;
        }
    }

    /// Whether every task has an outcome.
    pub fn finished(&self) -> (done: bool)
        ensures
            done == self@.finished(),
    {
        self.outcomes.len() >= self.tasks.len()
    }

    /// What to do next; `None` once every task has an outcome.
    pub fn pending(&self) -> (action: Option<Action>)
        ensures
            action_view(action) == self@.pending(),
    {
        if self.outcomes.len() >= self.tasks.len() {
            return None;
        }
        let task = &self.tasks[self.outcomes.len()];
        let dest = task.dest.clone();
        let action = match self.phase {
            Phase::Probing => Action::Probe { dest },
            Phase::Creating => Action::CreateDirectory { dest },
            Phase::Removing => Action::Remove { dest },
            Phase::Materializing => if self.config.static_files {
                Action::Copy { source: task.source.clone(), dest }
            } else {
                Action::Symlink { source: task.source.clone(), dest }
            },
        };
        Some(action)
    }

    /// Takes in what the caller reports of the pending action.
    pub fn advance(&mut self, event: Event)
        ensures
            final(self)@ == old(self)@.advance(event),
    {
        if self.outcomes.len() >= self.tasks.len() {
            return ;
        }
        let kind = self.tasks[self.outcomes.len()].kind;
        match react(self.config, kind, self.phase, event) {
            Verdict::Continue(phase) => {
                self.phase = phase;
            },
            Verdict::Settled(outcome) => {
                self.outcomes.push(outcome);
                self.phase = Phase::Probing;
                self.skip();
            },
        }
    }
}

/// The error that stands for a failure of `task`: one for a directory that
/// could not be made, one for a directory that could not be listed, and for
/// everything else the one for a file that could not be made.
pub open spec fn fault(failure: Failure, task: TaskView) -> ErrorsView {
    match failure {
        Failure::CreateDirectory => ErrorsView::ErrorCreatingDirectory {
            message: "Could not create "@ + task.dest,
        },
        Failure::ReadDirectory => ErrorsView::ErrorReadingDirectory {
            message: "Could not read "@ + task.source,
        },
        _ => ErrorsView::ErrorCreatingFile { message: "Failed to create "@ + task.dest },
    }
}

/// The errors of the failures among the first `upto` outcomes, in order.
pub open spec fn faults(tasks: Seq<TaskView>, outcomes: Seq<Outcome>, upto: int) -> Seq<ErrorsView>
    decreases upto,
{
    if upto <= 0 {
        Seq::empty()
    } else {
        let before = faults(tasks, outcomes, upto - 1);
        match outcomes[upto - 1] {
            Outcome::Failed(failure) => before.push(fault(failure, tasks[upto - 1])),
            _ => before,
        }
    }
}

/// See `fault`.
pub fn fault_of(failure: Failure, task: &LinkTask) -> (error: Errors)
    ensures
        error@ == fault(failure, task@),
{
    match failure {
        Failure::CreateDirectory => could_not_create(task.dest.as_str()),
        Failure::ReadDirectory => could_not_read(task.source.as_str()),
        _ => failed_to_create(task.dest.as_str()),
    }
}

/// What a run came to: its tasks, how each of them ended, and whether the
/// run as a whole succeeded.
#[derive(PartialEq, Eq, Debug)]
pub struct LinkResult {
    pub tasks: Vec<LinkTask>,
    /// The outcome of each task that was closed, in the order of the tasks.
    pub outcomes: Vec<Outcome>,
    /// Whether every task was closed and none of them failed.
    pub success: bool,
}

impl LinkResult {
    /// How many tasks have both a place in the plan and an outcome.
    pub open spec fn closed(&self) -> int {
        if self.outcomes.len() <= self.tasks.len() {
            self.outcomes.len() as int
        } else {
            self.tasks.len() as int
        }
    }

    /// One error for each task that failed, in the order of the tasks.
    pub fn errors(&self) -> (errors: Vec<Errors>)
        ensures
            error_views(errors@) == faults(task_views(self.tasks@), self.outcomes@, self.closed()),
    {
        let mut errors: Vec<Errors> = Vec::new();
        let mut i: usize = 0;
        assert(error_views(errors@) =~= Seq::empty());
        while i < self.outcomes.len() && i < self.tasks.len()
            invariant
                0 <= i <= self.closed(),
                error_views(errors@) == faults(task_views(self.tasks@), self.outcomes@, i as int),
            decreases self.closed() - i,
        {
            let ghost before = error_views(errors@);
            match self.outcomes[i] {
                Outcome::Failed(failure) => {
                    let error = fault_of(failure, &self.tasks[i]);
                    errors.push(error);
                    assert(error_views(errors@) =~= before.push(
                        fault(failure, task_views(self.tasks@)[i as int]),
                    ));
                },
                _ => {},
            }
            i += 1;
        }
        errors
    }

    /// The run's end as a `Result`: the error says that dotfiles could not
    /// be made, and is returned exactly when the run did not succeed.
    pub fn conclude(&self) -> (end: Result<(), Errors>)
        ensures
            self.success ==> end is Ok,
            !self.success ==> end is Err && end->Err_0@ == (ErrorsView::ErrorCreatingFile {
                message: "Failed to create dotfiles"@,
            }),
    {
        if self.success {
            Ok(())
        } else {
            Err(Errors::ErrorCreatingFile { message: String::from_str("Failed to create dotfiles") })
        }
    }
}

impl Linker {
    /// What the run has come to so far. The run has succeeded when every
    /// task is closed and none has failed.
    pub fn result(self) -> (result: LinkResult)
        ensures
            task_views(result.tasks@) == self@.tasks,
            result.outcomes@ == self@.outcomes,
            result.success == self@.succeeded(),
    {
        let mut success = self.outcomes.len() >= self.tasks.len();
        let mut i: usize = 0;
        while i < self.outcomes.len()
            invariant
                0 <= i <= self.outcomes.len(),
                success == (self@.finished() && forall|k: int|
                    0 <= k < i ==> !(#[trigger] self.outcomes@[k]).failed()),
            decreases self.outcomes.len() - i,
        {
            if self.outcomes[i].is_failure() {
                success = false;
            }
            i += 1;
        }
        LinkResult { tasks: self.tasks, outcomes: self.outcomes, success }
    }
}

} // verus!
