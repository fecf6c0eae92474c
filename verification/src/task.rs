//! One entry of the source tree, paired with the place it is mirrored to.

use vstd::prelude::*;
use vstd::string::*;

verus! {

/// What kind of entry a task stands for.
#[derive(Clone, Copy, PartialEq, Eq, Structural, Debug)]
pub enum TaskKind {
    /// A directory whose entries could be listed.
    Directory,
    /// A directory whose entries could not be listed.
    Unreadable,
    /// A regular file.
    File,
    /// Anything else; such an entry is never materialized.
    Unsupported,
}

/// A source entry and the destination path that mirrors it.
#[derive(PartialEq, Eq, Debug)]
pub struct LinkTask {
    pub kind: TaskKind,
    pub source: String,
    pub dest: String,
}

/// A `LinkTask` with its paths as sequences of characters.
pub struct TaskView {
    pub kind: TaskKind,
    pub source: Seq<char>,
    pub dest: Seq<char>,
}

impl View for LinkTask {
    type V = TaskView;

    open spec fn view(&self) -> TaskView {
        TaskView { kind: self.kind, source: self.source@, dest: self.dest@ }
    }
}

impl Clone for LinkTask {
    fn clone(&self) -> (copy: LinkTask)
        ensures
            copy@ == self@,
    {
        LinkTask { kind: self.kind, source: self.source.clone(), dest: self.dest.clone() }
    }
}

/// The views of a sequence of tasks, in order.
pub open spec fn task_views(tasks: Seq<LinkTask>) -> Seq<TaskView> {
    Seq::new(tasks.len(), |i: int| tasks[i]@)
}

} // verus!
