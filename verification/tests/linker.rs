use dotz::errors::Errors;
use dotz::ignore::{get_ignore_files, IgnoreSet, Resolved};
use dotz::linker::{
    fault_of, react, Action, Config, DestState, Event, Failure, LinkResult, Linker, Outcome, Phase,
    Verdict,
};
use dotz::task::{LinkTask, TaskKind};
use dotz::text::trimmed_lines;
use dotz::tree::{plan, Entry};
use std::collections::BTreeMap;

#[derive(Clone, PartialEq, Debug)]
enum Node {
    Directory,
    File(String),
    Link(String),
}

/// A disk held in a map, with the source files' contents beside it.
struct Disk {
    nodes: BTreeMap<String, Node>,
    contents: BTreeMap<String, String>,
    stuck: Vec<String>,
    log: Vec<Action>,
}

impl Disk {
    fn new(dirs: &[&str]) -> Disk {
        let mut nodes = BTreeMap::new();
        for dir in dirs.iter() {
            nodes.insert(dir.to_string(), Node::Directory);
        }
        Disk { nodes, contents: BTreeMap::new(), stuck: Vec::new(), log: Vec::new() }
    }

    fn in_directory(&self, path: &str) -> bool {
        match path.rfind('/') {
            Some(at) => {
                let dir = if at == 0 { "/" } else { &path[..at] };
                self.nodes.get(dir) == Some(&Node::Directory)
            }
            None => false,
        }
    }

    fn has_room(&self, path: &str) -> bool {
        !self.nodes.contains_key(path)
            && self.in_directory(path)
            && !self.stuck.contains(&path.to_string())
    }

    fn perform(&mut self, action: &Action) -> Event {
        self.log.push(match action {
            Action::Probe { dest } => Action::Probe { dest: dest.clone() },
            Action::CreateDirectory { dest } => Action::CreateDirectory { dest: dest.clone() },
            Action::Remove { dest } => Action::Remove { dest: dest.clone() },
            Action::Symlink { source, dest } => {
                Action::Symlink { source: source.clone(), dest: dest.clone() }
            }
            Action::Copy { source, dest } => {
                Action::Copy { source: source.clone(), dest: dest.clone() }
            }
        });
        match action {
            Action::Probe { dest } => Event::Probed(match self.nodes.get(dest) {
                None => DestState::Absent,
                Some(Node::Directory) => DestState::Directory,
                Some(_) => DestState::File,
            }),
            Action::CreateDirectory { dest } => {
                let ok = self.has_room(dest);
                if ok {
                    self.nodes.insert(dest.clone(), Node::Directory);
                }
                Event::Done(ok)
            }
            Action::Remove { dest } => {
                let ok = match self.nodes.get(dest) {
                    None | Some(Node::Directory) => false,
                    Some(_) => !self.stuck.contains(dest),
                };
                if ok {
                    self.nodes.remove(dest);
                }
                Event::Done(ok)
            }
            Action::Symlink { source, dest } => {
                let ok = self.has_room(dest);
                if ok {
                    self.nodes.insert(dest.clone(), Node::Link(source.clone()));
                }
                Event::Done(ok)
            }
            Action::Copy { source, dest } => {
                let ok = self.has_room(dest) && self.contents.contains_key(source);
                if ok {
                    self.nodes.insert(dest.clone(), Node::File(self.contents[source].clone()));
                }
                Event::Done(ok)
            }
        }
    }
}

fn drive(disk: &mut Disk, config: Config, tasks: Vec<LinkTask>) -> LinkResult {
    let mut linker = Linker::new(config, tasks);
    let mut rounds = 0;
    while let Some(action) = linker.pending() {
        assert!(!linker.finished());
        let event = disk.perform(&action);
        linker.advance(event);
        rounds += 1;
        assert!(rounds < 10_000);
    }
    assert!(linker.finished());
    linker.result()
}

fn file(name: &str) -> Entry {
    Entry::File { name: name.to_string() }
}

fn dir(name: &str, children: Vec<Entry>) -> Entry {
    Entry::Directory { name: name.to_string(), children }
}

fn task(kind: TaskKind, source: &str, dest: &str) -> LinkTask {
    LinkTask { kind, source: source.to_string(), dest: dest.to_string() }
}

const LINK: Config = Config { force: false, verbose: false, static_files: false };
const COPY: Config = Config { force: false, verbose: false, static_files: true };
const FORCE_LINK: Config = Config { force: true, verbose: false, static_files: false };
const FORCE_COPY: Config = Config { force: true, verbose: false, static_files: true };

/// The tree `{a.txt, sub/b.txt, sub/deep/c.txt, .dotzignore, empty/}` at `/s`.
fn tree() -> Vec<Entry> {
    vec![
        file("a.txt"),
        dir("sub", vec![file("b.txt"), dir("deep", vec![file("c.txt")])]),
        file(".dotzignore"),
        dir("empty", vec![]),
    ]
}

fn disk_with_sources() -> Disk {
    let mut disk = Disk::new(&["/d"]);
    disk.contents.insert("/s/a.txt".to_string(), "A".to_string());
    disk.contents.insert("/s/sub/b.txt".to_string(), "B".to_string());
    disk.contents.insert("/s/sub/deep/c.txt".to_string(), "C".to_string());
    disk.contents.insert("/s/.dotzignore".to_string(), "".to_string());
    disk
}

fn ignore(content: &str, known: &[(&str, bool)]) -> IgnoreSet {
    let mut lines = Vec::new();
    for name in trimmed_lines(content).iter() {
        let path = format!("/s/{}", name);
        let mut found = None;
        for (existing, directory) in known.iter() {
            if *existing == path {
                found = Some(Resolved { path: path.clone(), directory: *directory });
            }
        }
        lines.push(found);
    }
    get_ignore_files("/s", &lines)
}

fn link(disk: &mut Disk, config: Config, entries: Vec<Entry>, ignore: &IgnoreSet) -> LinkResult {
    let tasks = plan(&Some(entries), "/s", "/d", ignore);
    drive(disk, config, tasks)
}

fn below_dest(disk: &Disk) -> Vec<(String, Node)> {
    let mut out = Vec::new();
    for (path, node) in disk.nodes.iter() {
        if path != "/d" {
            out.push((path.clone(), node.clone()));
        }
    }
    out
}

#[test]
fn plan_lists_parents_before_children() {
    let tasks = plan(&Some(tree()), "/s", "/d", &ignore("", &[]));
    assert_eq!(
        tasks,
        vec![
            task(TaskKind::File, "/s/a.txt", "/d/a.txt"),
            task(TaskKind::Directory, "/s/sub", "/d/sub"),
            task(TaskKind::File, "/s/sub/b.txt", "/d/sub/b.txt"),
            task(TaskKind::Directory, "/s/sub/deep", "/d/sub/deep"),
            task(TaskKind::File, "/s/sub/deep/c.txt", "/d/sub/deep/c.txt"),
            task(TaskKind::Directory, "/s/empty", "/d/empty"),
        ]
    );
    for (at, task) in tasks.iter().enumerate() {
        let parent = &task.dest[..task.dest.rfind('/').unwrap()];
        if parent != "/d" {
            let before = tasks.iter().position(|t| t.dest == parent).unwrap();
            assert!(before < at);
            assert_eq!(tasks[before].kind, TaskKind::Directory);
        }
    }
}

#[test]
fn plan_of_an_unreadable_root_is_one_failure() {
    let tasks = plan(&None, "/s", "/d", &ignore("", &[]));
    assert_eq!(tasks, vec![task(TaskKind::Unreadable, "/s", "/d")]);
    let mut disk = Disk::new(&["/d"]);
    let result = drive(&mut disk, LINK, tasks);
    assert_eq!(result.outcomes, vec![Outcome::Failed(Failure::ReadDirectory)]);
    assert!(!result.success);
    assert_eq!(below_dest(&disk), vec![]);
    assert_eq!(
        result.errors(),
        vec![Errors::ErrorReadingDirectory { message: "Could not read /s".to_string() }]
    );
}

#[test]
fn plan_of_an_empty_listing_is_empty() {
    let tasks = plan(&Some(Vec::new()), "/s", "/d", &ignore("", &[]));
    assert_eq!(tasks, vec![]);
    let mut disk = Disk::new(&["/d"]);
    let result = drive(&mut disk, LINK, tasks);
    assert!(result.success);
    assert_eq!(result.outcomes, vec![]);
    assert_eq!(disk.log, vec![]);
    assert_eq!(result.conclude(), Ok(()));
}

#[test]
fn plan_marks_other_kinds() {
    let entries = vec![
        Entry::Other { name: "socket".to_string() },
        Entry::Unreadable { name: "locked".to_string() },
    ];
    let tasks = plan(&Some(entries), "/s/", "/", &ignore("", &[]));
    assert_eq!(
        tasks,
        vec![
            task(TaskKind::Unsupported, "/s/socket", "/socket"),
            task(TaskKind::Unreadable, "/s/locked", "/locked"),
        ]
    );
}

#[test]
fn empty_destination_is_filled_with_links() {
    let mut disk = disk_with_sources();
    let result = link(&mut disk, LINK, tree(), &ignore("", &[]));
    assert!(result.success);
    assert_eq!(
        result.outcomes,
        vec![
            Outcome::Linked,
            Outcome::DirectoryCreated,
            Outcome::Linked,
            Outcome::DirectoryCreated,
            Outcome::Linked,
            Outcome::DirectoryCreated,
        ]
    );
    assert_eq!(
        below_dest(&disk),
        vec![
            ("/d/a.txt".to_string(), Node::Link("/s/a.txt".to_string())),
            ("/d/empty".to_string(), Node::Directory),
            ("/d/sub".to_string(), Node::Directory),
            ("/d/sub/b.txt".to_string(), Node::Link("/s/sub/b.txt".to_string())),
            ("/d/sub/deep".to_string(), Node::Directory),
            ("/d/sub/deep/c.txt".to_string(), Node::Link("/s/sub/deep/c.txt".to_string())),
        ]
    );
    assert_eq!(result.errors(), vec![]);
}

#[test]
fn empty_destination_is_filled_with_copies() {
    let mut disk = disk_with_sources();
    let result = link(&mut disk, COPY, tree(), &ignore("", &[]));
    assert!(result.success);
    assert_eq!(
        below_dest(&disk),
        vec![
            ("/d/a.txt".to_string(), Node::File("A".to_string())),
            ("/d/empty".to_string(), Node::Directory),
            ("/d/sub".to_string(), Node::Directory),
            ("/d/sub/b.txt".to_string(), Node::File("B".to_string())),
            ("/d/sub/deep".to_string(), Node::Directory),
            ("/d/sub/deep/c.txt".to_string(), Node::File("C".to_string())),
        ]
    );
}

#[test]
fn second_run_changes_nothing() {
    for config in [LINK, COPY] {
        let mut disk = disk_with_sources();
        let first = link(&mut disk, config, tree(), &ignore("", &[]));
        assert!(first.success);
        let after_first = disk.nodes.clone();
        disk.log.clear();
        let second = link(&mut disk, config, tree(), &ignore("", &[]));
        assert!(second.success);
        assert_eq!(second.errors(), vec![]);
        assert_eq!(disk.nodes, after_first);
        assert_eq!(
            second.outcomes,
            vec![
                Outcome::Skipped,
                Outcome::DirectoryPresent,
                Outcome::Skipped,
                Outcome::DirectoryPresent,
                Outcome::Skipped,
                Outcome::DirectoryPresent,
            ]
        );
        for action in disk.log.iter() {
            assert!(matches!(action, Action::Probe { .. }));
        }
    }
}

#[test]
fn second_run_with_force_replaces_every_file() {
    let mut disk = disk_with_sources();
    link(&mut disk, FORCE_COPY, tree(), &ignore("", &[]));
    disk.contents.insert("/s/a.txt".to_string(), "A2".to_string());
    let second = link(&mut disk, FORCE_COPY, tree(), &ignore("", &[]));
    assert!(second.success);
    assert_eq!(
        second.outcomes,
        vec![
            Outcome::Copied,
            Outcome::DirectoryPresent,
            Outcome::Copied,
            Outcome::DirectoryPresent,
            Outcome::Copied,
            Outcome::DirectoryPresent,
        ]
    );
    assert_eq!(disk.nodes["/d/a.txt"], Node::File("A2".to_string()));
}

#[test]
fn force_replaces_what_is_there() {
    let mut disk = disk_with_sources();
    disk.nodes.insert("/d/a.txt".to_string(), Node::File("old".to_string()));
    let result = link(&mut disk, FORCE_LINK, vec![file("a.txt")], &ignore("", &[]));
    assert!(result.success);
    assert_eq!(result.outcomes, vec![Outcome::Linked]);
    assert_eq!(disk.nodes["/d/a.txt"], Node::Link("/s/a.txt".to_string()));
    assert_eq!(
        disk.log,
        vec![
            Action::Probe { dest: "/d/a.txt".to_string() },
            Action::Remove { dest: "/d/a.txt".to_string() },
            Action::Symlink { source: "/s/a.txt".to_string(), dest: "/d/a.txt".to_string() },
        ]
    );
}

#[test]
fn without_force_what_is_there_stays() {
    for config in [LINK, COPY] {
        let mut disk = disk_with_sources();
        disk.nodes.insert("/d/a.txt".to_string(), Node::File("old".to_string()));
        let result = link(&mut disk, config, vec![file("a.txt")], &ignore("", &[]));
        assert!(result.success);
        assert_eq!(result.outcomes, vec![Outcome::Skipped]);
        assert_eq!(result.errors(), vec![]);
        assert_eq!(disk.nodes["/d/a.txt"], Node::File("old".to_string()));
        assert_eq!(disk.log, vec![Action::Probe { dest: "/d/a.txt".to_string() }]);
    }
}

#[test]
fn ignored_file_leaves_its_namesake_two_levels_down() {
    let entries = vec![
        file("keep.txt"),
        dir("x", vec![file("keep.txt"), dir("y", vec![file("keep.txt")])]),
    ];
    let set = ignore("x/keep.txt", &[("/s/x/keep.txt", false)]);
    let tasks = plan(&Some(entries), "/s", "/d", &set);
    assert_eq!(
        tasks,
        vec![
            task(TaskKind::File, "/s/keep.txt", "/d/keep.txt"),
            task(TaskKind::Directory, "/s/x", "/d/x"),
            task(TaskKind::Directory, "/s/x/y", "/d/x/y"),
            task(TaskKind::File, "/s/x/y/keep.txt", "/d/x/y/keep.txt"),
        ]
    );
}

#[test]
fn ignored_directory_takes_its_subtree_along() {
    let set = ignore("sub\n", &[("/s/sub", true)]);
    let tasks = plan(&Some(tree()), "/s", "/d", &set);
    assert_eq!(
        tasks,
        vec![
            task(TaskKind::File, "/s/a.txt", "/d/a.txt"),
            task(TaskKind::Directory, "/s/empty", "/d/empty"),
        ]
    );
    let full = plan(&Some(tree()), "/s", "/d", &IgnoreSet { files: vec![], dirs: vec![] });
    let mut expected = Vec::new();
    for task in full {
        let directory = task.kind == TaskKind::Directory || task.kind == TaskKind::Unreadable;
        if !set.skips(&task.source, directory) {
            expected.push(task);
        }
    }
    assert_eq!(tasks, expected);
}

#[test]
fn ignored_directory_leaves_its_neighbours_alone() {
    let entries = vec![
        dir("sub", vec![file("b.txt")]),
        dir("sub2", vec![file("x")]),
        dir("subway", vec![file("c.txt")]),
        file("sub.txt"),
    ];
    let set = ignore("sub", &[("/s/sub", true)]);
    assert_eq!(
        plan(&Some(entries), "/s", "/d", &set),
        vec![
            task(TaskKind::Directory, "/s/sub2", "/d/sub2"),
            task(TaskKind::File, "/s/sub2/x", "/d/sub2/x"),
            task(TaskKind::Directory, "/s/subway", "/d/subway"),
            task(TaskKind::File, "/s/subway/c.txt", "/d/subway/c.txt"),
            task(TaskKind::File, "/s/sub.txt", "/d/sub.txt"),
        ]
    );
}

#[test]
fn a_line_that_leads_out_of_the_tree_ignores_nothing() {
    let lines = vec![
        Some(Resolved { path: "/".to_string(), directory: true }),
        Some(Resolved { path: "/etc".to_string(), directory: true }),
        Some(Resolved { path: "/s2".to_string(), directory: true }),
        Some(Resolved { path: "/etc/passwd".to_string(), directory: false }),
    ];
    let set = get_ignore_files("/s", &lines);
    let mut disk = disk_with_sources();
    let result = link(&mut disk, LINK, tree(), &set);
    assert!(result.success);
    assert_eq!(result.outcomes.len(), 6);
    assert_eq!(disk.nodes["/d/a.txt"], Node::Link("/s/a.txt".to_string()));
}

#[test]
fn static_mode_makes_no_link_and_link_mode_no_copy() {
    let mut copies = disk_with_sources();
    link(&mut copies, COPY, tree(), &ignore("", &[]));
    for (_, node) in below_dest(&copies) {
        assert!(!matches!(node, Node::Link(_)));
    }
    let mut links = disk_with_sources();
    link(&mut links, LINK, tree(), &ignore("", &[]));
    for (_, node) in below_dest(&links) {
        match node {
            Node::Directory => {}
            Node::Link(target) => assert!(target.starts_with("/s/")),
            Node::File(_) => panic!("a copy in link mode"),
        }
    }
}

#[test]
fn scenario_ignored_subdirectory() {
    let entries = vec![file("a.txt"), dir("sub", vec![file("b.txt")]), file(".dotzignore")];
    let set = ignore("sub", &[("/s/sub", true)]);
    let mut disk = disk_with_sources();
    let result = link(&mut disk, LINK, entries, &set);
    assert!(result.success);
    assert_eq!(
        below_dest(&disk),
        vec![("/d/a.txt".to_string(), Node::Link("/s/a.txt".to_string()))]
    );
}

#[test]
fn scenario_force_static_over_other_content() {
    let mut disk = disk_with_sources();
    disk.nodes.insert("/d/a.txt".to_string(), Node::File("something else".to_string()));
    let result = link(&mut disk, FORCE_COPY, vec![file("a.txt")], &ignore("", &[]));
    assert!(result.success);
    assert_eq!(result.outcomes, vec![Outcome::Copied]);
    assert_eq!(below_dest(&disk), vec![("/d/a.txt".to_string(), Node::File("A".to_string()))]);
}

#[test]
fn test_cli_force() {
    let entries = vec![file("test.conf")];
    let mut disk = Disk::new(&["/work/tests/.dotDest"]);
    disk.nodes.insert(
        "/work/tests/.dotDest/test.conf".to_string(),
        Node::Link("/elsewhere".to_string()),
    );
    let set = get_ignore_files("/work/tests/.dot", &Vec::new());
    let tasks = plan(&Some(entries), "/work/tests/.dot", "/work/tests/.dotDest", &set);
    let result = drive(&mut disk, FORCE_LINK, tasks);
    assert!(result.success);
    assert_eq!(result.conclude(), Ok(()));
    assert_eq!(
        disk.nodes["/work/tests/.dotDest/test.conf"],
        Node::Link("/work/tests/.dot/test.conf".to_string())
    );
}

#[test]
fn test_cli_static() {
    let entries = vec![file("test.conf")];
    let mut disk = Disk::new(&["/work/tests/.dotDest"]);
    disk.contents.insert("/work/tests/.dot/test.conf".to_string(), "conf".to_string());
    disk.nodes.insert(
        "/work/tests/.dotDest/test.conf".to_string(),
        Node::Link("/work/tests/.dot/test.conf".to_string()),
    );
    let set = get_ignore_files("/work/tests/.dot", &Vec::new());
    let tasks = plan(&Some(entries), "/work/tests/.dot", "/work/tests/.dotDest", &set);
    drive(&mut disk, FORCE_COPY, tasks);
    let node = &disk.nodes["/work/tests/.dotDest/test.conf"];
    assert!(!matches!(node, Node::Link(_)));
    assert_eq!(*node, Node::File("conf".to_string()));
}

#[test]
fn a_file_in_the_way_of_a_directory_fails_it_and_what_it_holds() {
    let mut disk = disk_with_sources();
    disk.nodes.insert("/d/sub".to_string(), Node::File("in the way".to_string()));
    let result = link(&mut disk, FORCE_LINK, tree(), &ignore("", &[]));
    assert!(!result.success);
    assert_eq!(
        result.outcomes,
        vec![
            Outcome::Linked,
            Outcome::Failed(Failure::CreateDirectory),
            Outcome::Failed(Failure::Materialize),
            Outcome::Failed(Failure::CreateDirectory),
            Outcome::Failed(Failure::Materialize),
            Outcome::DirectoryCreated,
        ]
    );
    assert_eq!(disk.nodes["/d/sub"], Node::File("in the way".to_string()));
    assert_eq!(
        result.errors(),
        vec![
            Errors::ErrorCreatingDirectory { message: "Could not create /d/sub".to_string() },
            Errors::ErrorCreatingFile { message: "Failed to create /d/sub/b.txt".to_string() },
            Errors::ErrorCreatingDirectory { message: "Could not create /d/sub/deep".to_string() },
            Errors::ErrorCreatingFile {
                message: "Failed to create /d/sub/deep/c.txt".to_string()
            },
        ]
    );
    assert_eq!(
        result.conclude(),
        Err(Errors::ErrorCreatingFile { message: "Failed to create dotfiles".to_string() })
    );
}

#[test]
fn a_directory_in_the_way_of_a_file_is_never_removed() {
    let mut disk = disk_with_sources();
    disk.nodes.insert("/d/a.txt".to_string(), Node::Directory);
    let forced = link(&mut disk, FORCE_LINK, vec![file("a.txt")], &ignore("", &[]));
    assert_eq!(forced.outcomes, vec![Outcome::Failed(Failure::Occupied)]);
    assert!(!forced.success);
    assert_eq!(disk.nodes["/d/a.txt"], Node::Directory);
    assert_eq!(disk.log, vec![Action::Probe { dest: "/d/a.txt".to_string() }]);
    let plain = link(&mut disk, LINK, vec![file("a.txt")], &ignore("", &[]));
    assert_eq!(plain.outcomes, vec![Outcome::Skipped]);
    assert!(plain.success);
    assert_eq!(disk.nodes["/d/a.txt"], Node::Directory);
}

#[test]
fn a_failed_removal_fails_the_file_and_the_run_goes_on() {
    let mut disk = disk_with_sources();
    disk.nodes.insert("/d/a.txt".to_string(), Node::File("old".to_string()));
    disk.stuck.push("/d/a.txt".to_string());
    let entries = vec![file("a.txt"), file(".dotzignore"), dir("empty", vec![])];
    let result = link(&mut disk, FORCE_COPY, entries, &ignore("", &[]));
    assert_eq!(
        result.outcomes,
        vec![Outcome::Failed(Failure::Remove), Outcome::DirectoryCreated]
    );
    assert!(!result.success);
    assert_eq!(disk.nodes["/d/a.txt"], Node::File("old".to_string()));
}

#[test]
fn a_failed_link_fails_the_file_and_the_run_goes_on() {
    let mut disk = disk_with_sources();
    disk.stuck.push("/d/a.txt".to_string());
    let entries = vec![file("a.txt"), dir("sub", vec![file("b.txt")])];
    let result = link(&mut disk, LINK, entries, &ignore("", &[]));
    assert_eq!(
        result.outcomes,
        vec![Outcome::Failed(Failure::Materialize), Outcome::DirectoryCreated, Outcome::Linked]
    );
    assert!(!result.success);
    assert!(!disk.nodes.contains_key("/d/a.txt"));
    assert_eq!(
        result.errors(),
        vec![Errors::ErrorCreatingFile { message: "Failed to create /d/a.txt".to_string() }]
    );
}

#[test]
fn unsupported_entries_fail_without_touching_the_disk() {
    let entries = vec![
        Entry::Other { name: "first".to_string() },
        file("a.txt"),
        Entry::Other { name: "mid".to_string() },
        Entry::Other { name: "mid2".to_string() },
        dir("empty", vec![]),
        Entry::Other { name: "last".to_string() },
    ];
    let mut disk = disk_with_sources();
    let result = link(&mut disk, LINK, entries, &ignore("", &[]));
    assert_eq!(
        result.outcomes,
        vec![
            Outcome::Failed(Failure::Unsupported),
            Outcome::Linked,
            Outcome::Failed(Failure::Unsupported),
            Outcome::Failed(Failure::Unsupported),
            Outcome::DirectoryCreated,
            Outcome::Failed(Failure::Unsupported),
        ]
    );
    assert!(!result.success);
    assert_eq!(
        disk.log,
        vec![
            Action::Probe { dest: "/d/a.txt".to_string() },
            Action::Symlink { source: "/s/a.txt".to_string(), dest: "/d/a.txt".to_string() },
            Action::Probe { dest: "/d/empty".to_string() },
            Action::CreateDirectory { dest: "/d/empty".to_string() },
        ]
    );
    assert_eq!(result.errors().len(), 4);
    assert_eq!(
        result.errors()[0],
        Errors::ErrorCreatingFile { message: "Failed to create /d/first".to_string() }
    );
}

#[test]
fn only_unsupported_entries_need_no_round() {
    let entries = vec![Entry::Other { name: "x".to_string() }];
    let tasks = plan(&Some(entries), "/s", "/d", &ignore("", &[]));
    let linker = Linker::new(LINK, tasks);
    assert!(linker.finished());
    assert_eq!(linker.pending(), None);
    let result = linker.result();
    assert_eq!(result.outcomes, vec![Outcome::Failed(Failure::Unsupported)]);
    assert!(!result.success);
}

#[test]
fn an_unreadable_directory_is_made_and_counted_as_failed() {
    let entries = vec![Entry::Unreadable { name: "locked".to_string() }, file("a.txt")];
    let mut disk = disk_with_sources();
    let result = link(&mut disk, LINK, entries, &ignore("", &[]));
    assert_eq!(
        result.outcomes,
        vec![Outcome::Failed(Failure::ReadDirectory), Outcome::Linked]
    );
    assert!(!result.success);
    assert_eq!(disk.nodes["/d/locked"], Node::Directory);
    assert_eq!(
        result.errors(),
        vec![Errors::ErrorReadingDirectory { message: "Could not read /s/locked".to_string() }]
    );
}

#[test]
fn an_event_of_the_wrong_kind_fails_the_task() {
    let tasks = vec![
        task(TaskKind::File, "/s/a", "/d/a"),
        task(TaskKind::Directory, "/s/b", "/d/b"),
        task(TaskKind::File, "/s/c", "/d/c"),
    ];
    let mut linker = Linker::new(LINK, tasks);
    assert_eq!(linker.pending(), Some(Action::Probe { dest: "/d/a".to_string() }));
    linker.advance(Event::Done(true));
    assert_eq!(linker.pending(), Some(Action::Probe { dest: "/d/b".to_string() }));
    linker.advance(Event::Probed(DestState::Absent));
    assert_eq!(linker.pending(), Some(Action::CreateDirectory { dest: "/d/b".to_string() }));
    linker.advance(Event::Probed(DestState::Directory));
    assert_eq!(linker.pending(), Some(Action::Probe { dest: "/d/c".to_string() }));
    assert!(!linker.finished());
    let partial = Linker::new(LINK, vec![task(TaskKind::File, "/s/a", "/d/a")]).result();
    assert!(!partial.success);
    assert_eq!(partial.outcomes, vec![]);
    linker.advance(Event::Probed(DestState::File));
    assert!(linker.finished());
    linker.advance(Event::Done(true));
    let result = linker.result();
    assert_eq!(
        result.outcomes,
        vec![
            Outcome::Failed(Failure::Unexpected),
            Outcome::Failed(Failure::Unexpected),
            Outcome::Skipped,
        ]
    );
    assert!(!result.success);
}

#[test]
fn react_follows_the_table() {
    let file = TaskKind::File;
    let dir = TaskKind::Directory;
    let probe = |found| Event::Probed(found);
    assert_eq!(
        react(LINK, file, Phase::Probing, probe(DestState::Absent)),
        Verdict::Continue(Phase::Materializing)
    );
    assert_eq!(
        react(LINK, file, Phase::Probing, probe(DestState::File)),
        Verdict::Settled(Outcome::Skipped)
    );
    assert_eq!(
        react(FORCE_LINK, file, Phase::Probing, probe(DestState::File)),
        Verdict::Continue(Phase::Removing)
    );
    assert_eq!(
        react(FORCE_LINK, file, Phase::Probing, probe(DestState::Directory)),
        Verdict::Settled(Outcome::Failed(Failure::Occupied))
    );
    assert_eq!(
        react(FORCE_LINK, file, Phase::Removing, Event::Done(true)),
        Verdict::Continue(Phase::Materializing)
    );
    assert_eq!(
        react(FORCE_LINK, file, Phase::Removing, Event::Done(false)),
        Verdict::Settled(Outcome::Failed(Failure::Remove))
    );
    assert_eq!(
        react(LINK, file, Phase::Materializing, Event::Done(true)),
        Verdict::Settled(Outcome::Linked)
    );
    assert_eq!(
        react(COPY, file, Phase::Materializing, Event::Done(true)),
        Verdict::Settled(Outcome::Copied)
    );
    assert_eq!(
        react(COPY, file, Phase::Materializing, Event::Done(false)),
        Verdict::Settled(Outcome::Failed(Failure::Materialize))
    );
    assert_eq!(
        react(COPY, file, Phase::Creating, Event::Done(true)),
        Verdict::Settled(Outcome::Failed(Failure::Unexpected))
    );
    assert_eq!(
        react(LINK, dir, Phase::Probing, probe(DestState::Directory)),
        Verdict::Settled(Outcome::DirectoryPresent)
    );
    assert_eq!(
        react(LINK, dir, Phase::Probing, probe(DestState::Absent)),
        Verdict::Continue(Phase::Creating)
    );
    assert_eq!(
        react(FORCE_LINK, dir, Phase::Probing, probe(DestState::File)),
        Verdict::Settled(Outcome::Failed(Failure::CreateDirectory))
    );
    assert_eq!(
        react(LINK, dir, Phase::Creating, Event::Done(true)),
        Verdict::Settled(Outcome::DirectoryCreated)
    );
    assert_eq!(
        react(LINK, dir, Phase::Creating, Event::Done(false)),
        Verdict::Settled(Outcome::Failed(Failure::CreateDirectory))
    );
    assert_eq!(
        react(LINK, dir, Phase::Materializing, Event::Done(true)),
        Verdict::Settled(Outcome::Failed(Failure::Unexpected))
    );
    assert_eq!(
        react(LINK, TaskKind::Unreadable, Phase::Probing, probe(DestState::Directory)),
        Verdict::Settled(Outcome::Failed(Failure::ReadDirectory))
    );
    assert_eq!(
        react(LINK, TaskKind::Unreadable, Phase::Creating, Event::Done(true)),
        Verdict::Settled(Outcome::Failed(Failure::ReadDirectory))
    );
    assert_eq!(
        react(LINK, TaskKind::Unreadable, Phase::Creating, Event::Done(false)),
        Verdict::Settled(Outcome::Failed(Failure::CreateDirectory))
    );
    assert_eq!(
        react(LINK, TaskKind::Unsupported, Phase::Probing, probe(DestState::Absent)),
        Verdict::Settled(Outcome::Failed(Failure::Unsupported))
    );
}

#[test]
fn every_failure_has_its_error() {
    let task = task(TaskKind::File, "/s/a", "/d/a");
    assert_eq!(
        fault_of(Failure::CreateDirectory, &task),
        Errors::ErrorCreatingDirectory { message: "Could not create /d/a".to_string() }
    );
    assert_eq!(
        fault_of(Failure::ReadDirectory, &task),
        Errors::ErrorReadingDirectory { message: "Could not read /s/a".to_string() }
    );
    for failure in [
        Failure::Occupied,
        Failure::Remove,
        Failure::Materialize,
        Failure::Unsupported,
        Failure::Unexpected,
    ] {
        assert_eq!(
            fault_of(failure, &task),
            Errors::ErrorCreatingFile { message: "Failed to create /d/a".to_string() }
        );
    }
    assert!(Outcome::Failed(Failure::Remove).is_failure());
    assert!(!Outcome::Skipped.is_failure());
    assert!(!Outcome::Linked.is_failure());
}

#[test]
fn scenario_missing_source_directory() {
    let disk = Disk::new(&["/d"]);
    let before = disk.nodes.clone();
    let args: std::collections::VecDeque<String> =
        vec!["/missing".to_string(), "/d".to_string()].into_iter().collect();
    let request = match dotz::args::parse_arguments(args, Some("/home/u".to_string())) {
        Ok(dotz::args::Command::Link(request)) => request,
        other => panic!("no request: {:?}", other),
    };
    let checked = request.validate(DestState::Absent, DestState::Directory);
    assert_eq!(
        checked,
        Err(dotz::args::Rejection {
            error: Errors::InvalidPath { message: "Path /missing does not exist".to_string() },
            usage: false,
            notice: false,
        })
    );
    assert_eq!(disk.nodes, before);
    assert_eq!(disk.log, vec![]);
}
