//! What holds of the tasks of every plan: where their paths lie, that no
//! two of them share a destination, and that a directory comes ahead of what
//! it holds.

use crate::ignore::IgnoreView;
use crate::paths::{
    as_directory, entry_within, is_name, joined, wants_separator, within, within_begins,
    within_within,
};
use crate::task::{TaskKind, TaskView};
use crate::tree::{Entry, entry_tasks, listing_tasks};
use vstd::prelude::*;

verus! {

/// A listing as a file system hands it out: every name is a name, no name
/// occurs twice in one directory, and the same holds further down.
pub open spec fn well_formed(entries: Vec<Entry>) -> bool
    decreases entries, 1nat,
{
    &&& forall|i: int| 0 <= i < entries.len() ==> entry_well_formed(#[trigger] entries[i])
    &&& forall|i: int, j: int|
        0 <= i < j < entries.len() ==> (#[trigger] entries[i]).name() != (
        #[trigger] entries[j]).name()
}

/// See `well_formed`.
pub open spec fn entry_well_formed(entry: Entry) -> bool
    decreases entry, 0nat,
{
    &&& is_name(entry.name())
    &&& entry matches Entry::Directory { children, .. } ==> well_formed(children)
}

/// Whether `path` names an entry of the directory `dir`.
pub open spec fn entry_of(path: Seq<char>, dir: Seq<char>) -> bool {
    exists|name: Seq<char>| is_name(name) && path == #[trigger] joined(dir, name)
}

/// The path of an entry is longer than that of its directory, begins with
/// it, and does not end in `/`.
pub proof fn joined_shape(dir: Seq<char>, name: Seq<char>)
    requires
        is_name(name),
    ensures
        dir.is_prefix_of(joined(dir, name)),
        joined(dir, name).len() > dir.len(),
        wants_separator(joined(dir, name)),
        forall|inner: Seq<char>| #[trigger]
            joined(joined(dir, name), inner) == joined(dir, name) + seq!['/'] + inner,
{
    let path = joined(dir, name);
    assert(path.last() == name.last());
    assert(name.contains(name.last()));
    assert(dir =~= path.subrange(0, dir.len() as int));
}

/// What lies within an entry's path lies in no other entry of the same
/// directory.
pub proof fn siblings_apart(
    dir: Seq<char>,
    one: Seq<char>,
    other: Seq<char>,
    p: Seq<char>,
    q: Seq<char>,
)
    requires
        is_name(one),
        is_name(other),
        one != other,
        within(p, joined(dir, one)),
        within(q, joined(dir, other)),
    ensures
        p != q,
{
    let base = if wants_separator(dir) {
        dir + seq!['/']
    } else {
        dir
    };
    let a = joined(dir, one);
    let b = joined(dir, other);
    assert(a =~= base + one);
    assert(b =~= base + other);
    joined_shape(dir, one);
    joined_shape(dir, other);
    assert(as_directory(a) == a + seq!['/']);
    assert(as_directory(b) == b + seq!['/']);
    if p == q {
        assert(a.is_prefix_of(p)) by {
            if p != a {
                assert(a =~= (a + seq!['/']).subrange(0, a.len() as int));
                assert(a =~= p.subrange(0, a.len() as int));
            }
        }
        assert(b.is_prefix_of(p)) by {
            if p != b {
                assert(b =~= (b + seq!['/']).subrange(0, b.len() as int));
                assert(b =~= p.subrange(0, b.len() as int));
            }
        }
        assert(p.len() == a.len() || p[a.len() as int] == '/') by {
            if p != a {
                assert((a + seq!['/'])[a.len() as int] == '/');
            }
        }
        assert(p.len() == b.len() || p[b.len() as int] == '/') by {
            if p != b {
                assert((b + seq!['/'])[b.len() as int] == '/');
            }
        }
        if a.len() < b.len() {
            let k = a.len() - base.len();
            assert(p[a.len() as int] == b[a.len() as int]);
            assert(b[a.len() as int] == other[k]);
            assert(other.contains(other[k]));
        } else if b.len() < a.len() {
            let k = b.len() - base.len();
            assert(p[b.len() as int] == a[b.len() as int]);
            assert(a[b.len() as int] == one[k]);
            assert(one.contains(one[k]));
        } else {
            assert forall|i: int| 0 <= i < one.len() implies one[i] == other[i] by {
                assert(a[base.len() + i] == p[base.len() + i]);
                assert(b[base.len() + i] == p[base.len() + i]);
            }
            assert(one =~= other);
        }
    }
}

/// What lies within an entry of a directory lies within the directory, and
/// is not the directory itself.
pub proof fn within_deeper(path: Seq<char>, dir: Seq<char>, name: Seq<char>)
    requires
        is_name(name),
        within(path, joined(dir, name)),
    ensures
        within(path, dir),
        path.len() > dir.len(),
{
    let inner = joined(dir, name);
    entry_within(dir, name);
    within_within(path, inner, dir);
    within_begins(path, inner);
}

/// Whether the task at index `k` stands behind the task of the directory
/// that its destination is an entry of.
pub open spec fn has_parent_before(tasks: Seq<TaskView>, k: int) -> bool {
    exists|j: int|
        0 <= j < k && (#[trigger] tasks[j]).kind == TaskKind::Directory && entry_of(
            tasks[k].dest,
            tasks[j].dest,
        )
}

/// Whether every destination is an entry of `dest_dir` or of the
/// destination of a directory task further ahead.
pub open spec fn parents_first(tasks: Seq<TaskView>, dest_dir: Seq<char>) -> bool {
    forall|k: int|
        #![trigger tasks[k]]
        0 <= k < tasks.len() ==> entry_of(tasks[k].dest, dest_dir) || has_parent_before(tasks, k)
}

/// Whether no two tasks share a destination.
pub open spec fn distinct_dests(tasks: Seq<TaskView>) -> bool {
    forall|i: int, j: int|
        #![trigger tasks[i], tasks[j]]
        0 <= i < j < tasks.len() ==> tasks[i].dest != tasks[j].dest
}

/// Whether `path` lies within the destination of one of the entries from
/// index `from` on.
pub open spec fn rooted(path: Seq<char>, entries: Vec<Entry>, from: int, dest_dir: Seq<char>) -> bool {
    exists|k: int|
        from <= k < entries.len() && within(path, joined(dest_dir, (#[trigger] entries[k]).name()))
}

/// The tasks of one well-formed entry: each lies within the entry's own
/// destination, no two share a destination, and parents come first.
pub proof fn entry_layout(
    entry: Entry,
    source_dir: Seq<char>,
    dest_dir: Seq<char>,
    ignore: IgnoreView,
)
    requires
        entry_well_formed(entry),
    ensures
        forall|i: int|
            #![trigger entry_tasks(entry, source_dir, dest_dir, ignore)[i]]
            0 <= i < entry_tasks(entry, source_dir, dest_dir, ignore).len() ==> within(
                entry_tasks(entry, source_dir, dest_dir, ignore)[i].dest,
                joined(dest_dir, entry.name()),
            ),
        distinct_dests(entry_tasks(entry, source_dir, dest_dir, ignore)),
        parents_first(entry_tasks(entry, source_dir, dest_dir, ignore), dest_dir),
    decreases entry, 0nat,
{
    let tasks = entry_tasks(entry, source_dir, dest_dir, ignore);
    let source = joined(source_dir, entry.name());
    let dest = joined(dest_dir, entry.name());
    joined_shape(dest_dir, entry.name());
    if ignore.skips(source, entry.is_directory()) {
    } else {
        assert(entry_of(dest, dest_dir));
        match entry {
            Entry::Directory { name, children } => {
                let below = listing_tasks(children, 0, source, dest, ignore);
                listing_layout(children, 0, source, dest, ignore);
                assert(tasks[0].dest == dest);
                assert forall|i: int| 0 <= i < tasks.len() implies within(
                    #[trigger] tasks[i].dest,
                    dest,
                ) && (i > 0 ==> tasks[i].dest.len() > dest.len()) by {
                    if i > 0 {
                        assert(tasks[i] == below[i - 1]);
                        assert(rooted(below[i - 1].dest, children, 0, dest));
                        let k = choose|k: int|
                            0 <= k < children.len() && within(
                                below[i - 1].dest,
                                joined(dest, (#[trigger] children[k]).name()),
                            );
                        assert(entry_well_formed(children[k]));
                        within_deeper(tasks[i].dest, dest, children[k].name());
                        assert(within(dest, dest));
                    }
                }
                assert forall|i: int, j: int| 0 <= i < j < tasks.len() implies (
                #[trigger] tasks[i]).dest != (#[trigger] tasks[j]).dest by {
                    assert(tasks[j] == below[j - 1]);
                    if i > 0 {
                        assert(tasks[i] == below[i - 1]);
                    }
                }
                assert forall|k: int| 0 <= k < tasks.len() implies entry_of(
                    (#[trigger] tasks[k]).dest,
                    dest_dir,
                ) || has_parent_before(tasks, k) by {
                    if k > 0 {
                        assert(tasks[k] == below[k - 1]);
                        if entry_of(below[k - 1].dest, dest) {
                            assert(tasks[0].kind == TaskKind::Directory);
                        } else {
                            assert(has_parent_before(below, k - 1));
                            let j = choose|j: int|
                                0 <= j < k - 1 && (#[trigger] below[j]).kind == TaskKind::Directory
                                    && entry_of(below[k - 1].dest, below[j].dest);
                            assert(tasks[j + 1] == below[j]);
                        }
                    }
                }
            },
            _ => {
                assert(tasks =~= seq![TaskView { kind: entry.kind(), source, dest }]);
            },
        }
    }
}

/// The tasks of a well-formed listing: each lies within the destination of
/// one of the listed entries, no two share a destination, and parents come
/// first.
pub proof fn listing_layout(
    entries: Vec<Entry>,
    from: int,
    source_dir: Seq<char>,
    dest_dir: Seq<char>,
    ignore: IgnoreView,
)
    requires
        well_formed(entries),
        0 <= from,
    ensures
        forall|i: int|
            #![trigger listing_tasks(entries, from, source_dir, dest_dir, ignore)[i]]
            0 <= i < listing_tasks(entries, from, source_dir, dest_dir, ignore).len() ==> rooted(
                listing_tasks(entries, from, source_dir, dest_dir, ignore)[i].dest,
                entries,
                from,
                dest_dir,
            ),
        distinct_dests(listing_tasks(entries, from, source_dir, dest_dir, ignore)),
        parents_first(listing_tasks(entries, from, source_dir, dest_dir, ignore), dest_dir),
    decreases entries, entries.len() - from,
{
    let tasks = listing_tasks(entries, from, source_dir, dest_dir, ignore);
    if from < entries.len() {
        let entry = entries[from];
        let first = entry_tasks(entry, source_dir, dest_dir, ignore);
        let rest = listing_tasks(entries, from + 1, source_dir, dest_dir, ignore);
        assert(entry_well_formed(entry));
        entry_layout(entry, source_dir, dest_dir, ignore);
        listing_layout(entries, from + 1, source_dir, dest_dir, ignore);
        assert(tasks == first + rest);
        assert forall|i: int| 0 <= i < tasks.len() implies rooted(
            (#[trigger] tasks[i]).dest,
            entries,
            from,
            dest_dir,
        ) by {
            if i < first.len() {
                assert(tasks[i] == first[i]);
                assert(within(tasks[i].dest, joined(dest_dir, entries[from].name())));
            } else {
                assert(tasks[i] == rest[i - first.len()]);
                assert(rooted(rest[i - first.len()].dest, entries, from + 1, dest_dir));
                let k = choose|k: int|
                    from + 1 <= k < entries.len() && within(
                        rest[i - first.len()].dest,
                        joined(dest_dir, (#[trigger] entries[k]).name()),
                    );
                assert(within(tasks[i].dest, joined(dest_dir, entries[k].name())));
            }
        }
        assert forall|i: int, j: int| 0 <= i < j < tasks.len() implies (#[trigger] tasks[i]).dest
            != (#[trigger] tasks[j]).dest by {
            if j < first.len() {
                assert(tasks[i] == first[i] && tasks[j] == first[j]);
            } else if i >= first.len() {
                assert(tasks[i] == rest[i - first.len()] && tasks[j] == rest[j - first.len()]);
            } else {
                assert(tasks[i] == first[i] && tasks[j] == rest[j - first.len()]);
                assert(rooted(rest[j - first.len()].dest, entries, from + 1, dest_dir));
                let k = choose|k: int|
                    from + 1 <= k < entries.len() && within(
                        rest[j - first.len()].dest,
                        joined(dest_dir, (#[trigger] entries[k]).name()),
                    );
                assert(entry_well_formed(entries[k]));
                assert(entries[from].name() != entries[k].name());
                siblings_apart(
                    dest_dir,
                    entries[from].name(),
                    entries[k].name(),
                    tasks[i].dest,
                    tasks[j].dest,
                );
            }
        }
        assert forall|k: int| 0 <= k < tasks.len() implies entry_of(
            (#[trigger] tasks[k]).dest,
            dest_dir,
        ) || has_parent_before(tasks, k) by {
            if k < first.len() {
                assert(tasks[k] == first[k]);
                if !entry_of(first[k].dest, dest_dir) {
                    assert(has_parent_before(first, k));
                    let j = choose|j: int|
                        0 <= j < k && (#[trigger] first[j]).kind == TaskKind::Directory && entry_of(
                            first[k].dest,
                            first[j].dest,
                        );
                    assert(tasks[j] == first[j]);
                }
            } else {
                let at = k - first.len();
                assert(tasks[k] == rest[at]);
                if !entry_of(rest[at].dest, dest_dir) {
                    assert(has_parent_before(rest, at));
                    let j = choose|j: int|
                        0 <= j < at && (#[trigger] rest[j]).kind == TaskKind::Directory && entry_of(
                            rest[at].dest,
                            rest[j].dest,
                        );
                    assert(tasks[j + first.len()] == rest[j]);
                }
            }
        }
    }
}

/// Whether every source path lies within `dir`.
pub open spec fn sources_within(tasks: Seq<TaskView>, dir: Seq<char>) -> bool {
    forall|i: int| #![trigger tasks[i]] 0 <= i < tasks.len() ==> within(tasks[i].source, dir)
}

/// The source paths of an entry's tasks all lie within the entry's own, and
/// with that within the directory that holds the entry.
pub proof fn entry_sources(
    entry: Entry,
    source_dir: Seq<char>,
    dest_dir: Seq<char>,
    ignore: IgnoreView,
)
    ensures
        sources_within(
            entry_tasks(entry, source_dir, dest_dir, ignore),
            joined(source_dir, entry.name()),
        ),
        sources_within(entry_tasks(entry, source_dir, dest_dir, ignore), source_dir),
    decreases entry, 0nat,
{
    let tasks = entry_tasks(entry, source_dir, dest_dir, ignore);
    let source = joined(source_dir, entry.name());
    let dest = joined(dest_dir, entry.name());
    entry_within(source_dir, entry.name());
    if !ignore.skips(source, entry.is_directory()) {
        if let Entry::Directory { name, children } = entry {
            let below = listing_tasks(children, 0, source, dest, ignore);
            listing_sources(children, 0, source, dest, ignore);
            assert forall|i: int| #![trigger tasks[i]] 0 <= i < tasks.len() implies within(
                tasks[i].source,
                source,
            ) by {
                if i > 0 {
                    assert(tasks[i] == below[i - 1]);
                }
            }
        }
        assert forall|i: int| #![trigger tasks[i]] 0 <= i < tasks.len() implies within(
            tasks[i].source,
            source_dir,
        ) by {
            within_within(tasks[i].source, source, source_dir);
        }
    }
}

/// The source paths of a listing's tasks all lie within the listed
/// directory.
pub proof fn listing_sources(
    entries: Vec<Entry>,
    from: int,
    source_dir: Seq<char>,
    dest_dir: Seq<char>,
    ignore: IgnoreView,
)
    requires
        0 <= from,
    ensures
        sources_within(listing_tasks(entries, from, source_dir, dest_dir, ignore), source_dir),
    decreases entries, entries.len() - from,
{
    let tasks = listing_tasks(entries, from, source_dir, dest_dir, ignore);
    if from < entries.len() {
        let first = entry_tasks(entries[from], source_dir, dest_dir, ignore);
        let rest = listing_tasks(entries, from + 1, source_dir, dest_dir, ignore);
        entry_sources(entries[from], source_dir, dest_dir, ignore);
        listing_sources(entries, from + 1, source_dir, dest_dir, ignore);
        assert forall|i: int| #![trigger tasks[i]] 0 <= i < tasks.len() implies within(
            tasks[i].source,
            source_dir,
        ) by {
            if i < first.len() {
                assert(tasks[i] == first[i]);
            } else {
                assert(tasks[i] == rest[i - first.len()]);
            }
        }
    }
}

/// The path reached from `root` by going down through `names`, one
/// directory entry after the other.
pub open spec fn descend(root: Seq<char>, names: Seq<Seq<char>>) -> Seq<char>
    decreases names.len(),
{
    if names.len() == 0 {
        root
    } else {
        descend(joined(root, names[0]), names.drop_first())
    }
}

/// Whether the task's source lies under `source_dir` where its destination
/// lies under `dest_dir`: the same names lead to both.
pub open spec fn mirrored(task: TaskView, source_dir: Seq<char>, dest_dir: Seq<char>) -> bool {
    exists|names: Seq<Seq<char>>|
        names.len() > 0 && task.source == #[trigger] descend(source_dir, names) && task.dest
            == descend(dest_dir, names)
}

proof fn mirrored_deeper(task: TaskView, source_dir: Seq<char>, dest_dir: Seq<char>, name: Seq<char>)
    requires
        mirrored(task, joined(source_dir, name), joined(dest_dir, name)),
    ensures
        mirrored(task, source_dir, dest_dir),
{
    let below = choose|names: Seq<Seq<char>>|
        names.len() > 0 && task.source == #[trigger] descend(joined(source_dir, name), names)
            && task.dest == descend(joined(dest_dir, name), names);
    let names = seq![name] + below;
    assert(names.drop_first() =~= below);
    assert(task.source == descend(source_dir, names));
    assert(task.dest == descend(dest_dir, names));
}

/// Every task of an entry mirrors its source: the path from the source
/// directory to the source is the path from the destination directory to
/// the destination.
pub proof fn entry_mirrors(
    entry: Entry,
    source_dir: Seq<char>,
    dest_dir: Seq<char>,
    ignore: IgnoreView,
)
    ensures
        forall|i: int|
            #![trigger entry_tasks(entry, source_dir, dest_dir, ignore)[i]]
            0 <= i < entry_tasks(entry, source_dir, dest_dir, ignore).len() ==> mirrored(
                entry_tasks(entry, source_dir, dest_dir, ignore)[i],
                source_dir,
                dest_dir,
            ),
    decreases entry, 0nat,
{
    let tasks = entry_tasks(entry, source_dir, dest_dir, ignore);
    let source = joined(source_dir, entry.name());
    let dest = joined(dest_dir, entry.name());
    if !ignore.skips(source, entry.is_directory()) {
        let own = seq![entry.name()];
        assert(own.drop_first().len() == 0);
        assert(source == descend(source_dir, own)) by {
            reveal_with_fuel(descend, 2);
        }
        assert(dest == descend(dest_dir, own)) by {
            reveal_with_fuel(descend, 2);
        }
        assert(mirrored(tasks[0], source_dir, dest_dir));
        if let Entry::Directory { name, children } = entry {
            let below = listing_tasks(children, 0, source, dest, ignore);
            listing_mirrors(children, 0, source, dest, ignore);
            assert forall|i: int| #![trigger tasks[i]] 0 <= i < tasks.len() implies mirrored(
                tasks[i],
                source_dir,
                dest_dir,
            ) by {
                if i > 0 {
                    assert(tasks[i] == below[i - 1]);
                    mirrored_deeper(tasks[i], source_dir, dest_dir, entry.name());
                }
            }
        }
    }
}

/// Every task of a listing mirrors its source; see `entry_mirrors`.
pub proof fn listing_mirrors(
    entries: Vec<Entry>,
    from: int,
    source_dir: Seq<char>,
    dest_dir: Seq<char>,
    ignore: IgnoreView,
)
    requires
        0 <= from,
    ensures
        forall|i: int|
            #![trigger listing_tasks(entries, from, source_dir, dest_dir, ignore)[i]]
            0 <= i < listing_tasks(entries, from, source_dir, dest_dir, ignore).len() ==> mirrored(
                listing_tasks(entries, from, source_dir, dest_dir, ignore)[i],
                source_dir,
                dest_dir,
            ),
    decreases entries, entries.len() - from,
{
    let tasks = listing_tasks(entries, from, source_dir, dest_dir, ignore);
    if from < entries.len() {
        let first = entry_tasks(entries[from], source_dir, dest_dir, ignore);
        let rest = listing_tasks(entries, from + 1, source_dir, dest_dir, ignore);
        entry_mirrors(entries[from], source_dir, dest_dir, ignore);
        listing_mirrors(entries, from + 1, source_dir, dest_dir, ignore);
        assert forall|i: int| #![trigger tasks[i]] 0 <= i < tasks.len() implies mirrored(
            tasks[i],
            source_dir,
            dest_dir,
        ) by {
            if i < first.len() {
                assert(tasks[i] == first[i]);
            } else {
                assert(tasks[i] == rest[i - first.len()]);
            }
        }
    }
}

} // verus!
