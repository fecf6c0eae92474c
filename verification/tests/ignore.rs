use dotz::ignore::{check_paths_contains_path, get_ignore_files, Resolved};
use dotz::text::is_among;
use dotz::text::trimmed_lines;

fn resolve(root: &str, name: &str, known: &[(&str, bool)]) -> Option<Resolved> {
    let name = name.trim_start_matches("./");
    let path = format!("{}/{}", root, name);
    for (existing, directory) in known.iter() {
        if *existing == path {
            return Some(Resolved { path, directory: *directory });
        }
    }
    None
}

#[test]
fn test_get_ignore_files() {
    let path = "/work/tests";
    let known = [("/work/tests/.dot", true), ("/work/tests/.dot/test.conf", false)];
    let names = trimmed_lines("./.dot/test.conf\nnot-there\n");
    let mut lines = Vec::new();
    for name in names.iter() {
        lines.push(resolve(path, name, &known));
    }
    let ignore_files = get_ignore_files(path, &lines);

    assert_eq!(ignore_files.files.len() + ignore_files.dirs.len(), 2);
    assert_eq!(ignore_files.files[0], "/work/tests/.dotzignore");
    assert_eq!(ignore_files.files[1], "/work/tests/.dot/test.conf");
}

#[test]
fn ignore_set_without_lines_holds_the_sentinel() {
    let set = get_ignore_files("/s", &Vec::new());
    assert_eq!(set.files, vec!["/s/.dotzignore".to_string()]);
    assert!(set.dirs.is_empty());
    assert!(set.skips(&"/s/.dotzignore".to_string(), false));
    assert!(!set.skips(&"/s/a.txt".to_string(), false));
}

#[test]
fn ignore_set_tells_directories_from_files() {
    let lines = vec![
        Some(Resolved { path: "/s/sub".to_string(), directory: true }),
        None,
        Some(Resolved { path: "/s/a.txt".to_string(), directory: false }),
        Some(Resolved { path: "/s/deep/er".to_string(), directory: true }),
    ];
    let set = get_ignore_files("/s", &lines);
    assert_eq!(set.files, vec!["/s/.dotzignore".to_string(), "/s/a.txt".to_string()]);
    assert_eq!(set.dirs, vec!["/s/sub".to_string(), "/s/deep/er".to_string()]);
}

#[test]
fn skips_matches_files_exactly_and_directories_with_their_subtree() {
    let lines = vec![
        Some(Resolved { path: "/s/sub".to_string(), directory: true }),
        Some(Resolved { path: "/s/a.txt".to_string(), directory: false }),
    ];
    let set = get_ignore_files("/s", &lines);
    assert!(set.skips(&"/s/sub".to_string(), true));
    assert!(set.skips(&"/s/sub/b.txt".to_string(), false));
    assert!(set.skips(&"/s/sub/x/y".to_string(), false));
    assert!(!set.skips(&"/s/subway".to_string(), false));
    assert!(!set.skips(&"/s/sub2/x".to_string(), false));
    assert!(!set.skips(&"/s/sub.txt".to_string(), false));
    assert!(set.skips(&"/s/a.txt".to_string(), false));
    assert!(!set.skips(&"/s/a.txt".to_string(), true));
    assert!(!set.skips(&"/s/a.txt.bak/x".to_string(), true));
    assert!(!set.skips(&"/s/x/a.txt".to_string(), false));
    assert!(!set.skips(&"/s/su".to_string(), true));
}

#[test]
fn check_paths_contains_path_goes_by_components() {
    let paths = vec!["/s/sub".to_string(), "/s/other".to_string()];
    assert!(check_paths_contains_path(&paths, &"/s/sub/b.txt".to_string()));
    assert!(check_paths_contains_path(&paths, &"/s/sub/deep/c.txt".to_string()));
    assert!(check_paths_contains_path(&paths, &"/s/other".to_string()));
    assert!(check_paths_contains_path(&paths, &"/s/sub".to_string()));
    assert!(!check_paths_contains_path(&paths, &"/s/sub2/x".to_string()));
    assert!(!check_paths_contains_path(&paths, &"/s/sub2".to_string()));
    assert!(!check_paths_contains_path(&paths, &"/s/subway".to_string()));
    assert!(!check_paths_contains_path(&paths, &"/s/a.txt".to_string()));
    assert!(!check_paths_contains_path(&paths, &"/s".to_string()));
    assert!(!check_paths_contains_path(&paths, &"/s/su".to_string()));
    assert!(!check_paths_contains_path(&Vec::new(), &"/s/a.txt".to_string()));
    assert!(!check_paths_contains_path(&Vec::new(), &"".to_string()));
}

#[test]
fn check_paths_contains_path_takes_a_directory_that_ends_in_a_slash() {
    let root = vec!["/".to_string()];
    assert!(check_paths_contains_path(&root, &"/".to_string()));
    assert!(check_paths_contains_path(&root, &"/s/a.txt".to_string()));
    assert!(!check_paths_contains_path(&root, &"s/a.txt".to_string()));
    let slashed = vec!["/s/sub/".to_string()];
    assert!(check_paths_contains_path(&slashed, &"/s/sub/b.txt".to_string()));
    assert!(!check_paths_contains_path(&slashed, &"/s/sub2/x".to_string()));
    assert!(!check_paths_contains_path(&slashed, &"/s/sub".to_string()));
}

#[test]
fn check_paths_contains_path_agrees_with_std_on_components() {
    let dirs = ["/", "/s", "/s/sub", "/s/sub2", "/s/sub/deep", "/etc"];
    let paths = ["/", "/s", "/s/sub", "/s/sub2/x", "/s/sub/deep/c", "/s/subway", "/etc/x", "/e"];
    for dir in dirs.iter() {
        for path in paths.iter() {
            let expected = std::path::Path::new(path).starts_with(dir);
            let found = check_paths_contains_path(&vec![dir.to_string()], &path.to_string());
            assert_eq!(found, expected, "{} in {}", path, dir);
        }
    }
}

#[test]
fn lines_outside_the_tree_are_passed_over() {
    let lines = vec![
        Some(Resolved { path: "/etc".to_string(), directory: true }),
        Some(Resolved { path: "/".to_string(), directory: true }),
        Some(Resolved { path: "/src2/x".to_string(), directory: false }),
        Some(Resolved { path: "/src/in".to_string(), directory: true }),
        Some(Resolved { path: "/srcfile".to_string(), directory: false }),
        Some(Resolved { path: "/src/in/file".to_string(), directory: false }),
    ];
    let set = get_ignore_files("/src", &lines);
    assert_eq!(set.dirs, vec!["/src/in".to_string()]);
    assert_eq!(set.files, vec!["/src/.dotzignore".to_string(), "/src/in/file".to_string()]);
    assert!(!set.skips(&"/src/a.txt".to_string(), false));
}

#[test]
fn a_line_that_names_the_root_is_kept() {
    let lines = vec![Some(Resolved { path: "/src".to_string(), directory: true })];
    let set = get_ignore_files("/src", &lines);
    assert_eq!(set.dirs, vec!["/src".to_string()]);
    assert!(set.skips(&"/src/a.txt".to_string(), false));
}

#[test]
fn is_among_is_an_equality_test() {
    let paths = vec!["/s/a.txt".to_string()];
    assert!(is_among(&"/s/a.txt".to_string(), &paths));
    assert!(!is_among(&"/s/a.txt2".to_string(), &paths));
    assert!(!is_among(&"/s/a".to_string(), &paths));
    assert!(!is_among(&"/s/a".to_string(), &Vec::new()));
}
