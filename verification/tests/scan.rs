use filesystem_watcher::error::FilesystemWatcherError;
use filesystem_watcher::path::WatchPath;
use filesystem_watcher::rules::{ask_rules, build_gitignore_set, start_gitignore_set, RuleMatch};
use filesystem_watcher::scan::{
    exclude_path, walk_admits, GitignoreScan, IoErrorKind, ScanEvent, ScanReply, ScanStep,
};
use ignore::gitignore::Gitignore;

fn path(text: &str) -> WatchPath {
    WatchPath::new(text.as_bytes().to_vec())
}

fn tell(scan: &mut GitignoreScan, event: ScanEvent) -> ScanReply {
    assert!(scan.expects(&event));
    scan.step(event)
}

#[test]
fn the_walk_takes_up_directories_and_gitignore_files() {
    assert!(walk_admits(b"src", Some(true)));
    assert!(walk_admits(b".gitignore", Some(false)));
    assert!(walk_admits(b".gitignore", None));
    assert!(!walk_admits(b"main.rs", Some(false)));
    assert!(!walk_admits(b"src", None));
}

#[test]
fn the_walk_does_not_enter_excluded_directories() {
    for dir in ["node_modules", ".pnpm", "target", "dist", "build", ".next", ".nuxt"] {
        assert!(!walk_admits(dir.as_bytes(), Some(true)), "{dir}");
        assert!(!walk_admits(dir.as_bytes(), Some(false)), "{dir}");
    }
}

#[test]
fn the_exclude_file_lies_in_the_repository() {
    assert_eq!(exclude_path(&path("/repo")), path("/repo/.git/info/exclude"));
    assert_eq!(exclude_path(&path("/repo//")), path("/repo//.git/info/exclude"));
    assert_eq!(exclude_path(&path("")), path(".git/info/exclude"));
}

#[test]
fn a_scan_adds_files_and_then_the_exclude_file() {
    let mut scan = GitignoreScan::new(&path("/repo"));
    let reply = tell(&mut scan, ScanEvent::Entry { path: path("/repo"), is_dir: Some(true) });
    assert!(reply.add.is_none() && matches!(reply.next, ScanStep::Walk));
    let file = path("/repo/.gitignore");
    let reply = tell(&mut scan, ScanEvent::Entry { path: file.clone(), is_dir: Some(false) });
    assert_eq!(reply.add, Some(file));
    assert!(matches!(reply.next, ScanStep::Walk));
    let file = path("/repo/sub/.gitignore");
    let reply = tell(&mut scan, ScanEvent::Entry { path: file.clone(), is_dir: None });
    assert_eq!(reply.add, Some(file));
    let reply = tell(&mut scan, ScanEvent::WalkEnd);
    assert!(reply.add.is_none());
    match reply.next {
        ScanStep::CheckExclude(file) => assert_eq!(file, path("/repo/.git/info/exclude")),
        other => panic!("{other:?}"),
    }
    let reply = tell(&mut scan, ScanEvent::ExcludeChecked { exists: true });
    assert_eq!(reply.add, Some(path("/repo/.git/info/exclude")));
    assert!(matches!(reply.next, ScanStep::Build));
    assert!(!scan.expects(&ScanEvent::WalkEnd));
}

#[test]
fn a_missing_exclude_file_is_not_added() {
    let mut scan = GitignoreScan::new(&path("/repo"));
    assert!(!scan.expects(&ScanEvent::ExcludeChecked { exists: true }));
    tell(&mut scan, ScanEvent::WalkEnd);
    assert!(!scan.expects(&ScanEvent::WalkEnd));
    let reply = tell(&mut scan, ScanEvent::ExcludeChecked { exists: false });
    assert!(reply.add.is_none() && matches!(reply.next, ScanStep::Build));
}

#[test]
fn an_entry_that_may_not_be_read_is_skipped() {
    let mut scan = GitignoreScan::new(&path("/repo"));
    let reply = tell(
        &mut scan,
        ScanEvent::Failure {
            kind: Some(IoErrorKind::PermissionDenied),
            error: ignore::Error::InvalidDefinition,
        },
    );
    assert!(reply.add.is_none() && matches!(reply.next, ScanStep::Walk));
    assert!(scan.expects(&ScanEvent::WalkEnd));
}

#[test]
fn any_other_failure_ends_the_scan() {
    for kind in [Some(IoErrorKind::Other), None] {
        let mut scan = GitignoreScan::new(&path("/repo"));
        let error = ignore::Error::UnrecognizedFileType("zip".to_string());
        let reply = tell(&mut scan, ScanEvent::Failure { kind, error });
        assert!(reply.add.is_none());
        match reply.next {
            ScanStep::Fail(FilesystemWatcherError::Ignore(error)) => {
                assert_eq!(error.to_string(), "unrecognized file type: zip")
            }
            other => panic!("{other:?}"),
        }
        assert!(!scan.expects(&ScanEvent::WalkEnd));
    }
}

/// An entry of a tree in memory: its path below the root, and whether it is a directory.
type TreeEntry = (&'static str, bool);

/// The files that a scan adds when a walk takes up what it admits of the tree.
fn files_added(tree: &[TreeEntry]) -> Vec<WatchPath> {
    let root = path("/repo");
    let mut scan = GitignoreScan::new(&root);
    let mut added = Vec::new();
    for (below, is_dir) in tree {
        let names: Vec<&str> = below.split('/').collect();
        let reached = (0..names.len()).all(|i| {
            let leads_on = i + 1 < names.len();
            walk_admits(names[i].as_bytes(), Some(leads_on || *is_dir))
        });
        if reached {
            let entry = root.join(below.as_bytes());
            let reply = tell(&mut scan, ScanEvent::Entry { path: entry, is_dir: Some(*is_dir) });
            assert!(matches!(reply.next, ScanStep::Walk));
            added.extend(reply.add);
        }
    }
    added
}

#[test]
fn gitignore_files_in_excluded_directories_have_no_effect() {
    let tree = [
        (".gitignore", false),
        ("src", true),
        ("src/.gitignore", false),
        ("src/main.rs", false),
        ("node_modules", true),
        ("node_modules/.gitignore", false),
        ("node_modules/pkg", true),
        ("node_modules/pkg/.gitignore", false),
        ("src/target", true),
        ("src/target/.gitignore", false),
    ];
    let without: Vec<TreeEntry> = tree[..4].to_vec();
    let expected = vec![path("/repo/.gitignore"), path("/repo/src/.gitignore")];
    assert_eq!(files_added(&tree), expected);
    assert_eq!(files_added(&without), expected);
}

/// The rules of the tree, given the lines of each of its files.
fn collect(tree: &[TreeEntry], lines: &dyn Fn(&WatchPath) -> Vec<&'static str>) -> Gitignore {
    let mut builder = start_gitignore_set(&path("/repo"));
    for file in files_added(tree) {
        for line in lines(&file) {
            builder.add_line(None, line).unwrap();
        }
    }
    build_gitignore_set(&builder).unwrap()
}

#[test]
fn excluded_directories_change_no_rule() {
    let tree = [
        (".gitignore", false),
        ("dist", true),
        ("dist/.gitignore", false),
        ("src", true),
        ("src/.gitignore", false),
    ];
    let without: Vec<TreeEntry> = vec![tree[0], tree[1], tree[3], tree[4]];
    let lines = |file: &WatchPath| match file.bytes().as_slice() {
        b"/repo/.gitignore" => vec!["*.log", "!keep.log"],
        b"/repo/src/.gitignore" => vec!["tmp/"],
        _ => vec!["*.rs"],
    };
    let first = collect(&tree, &lines);
    let second = collect(&without, &lines);
    assert_eq!(first.len(), 3);
    assert_eq!(second.len(), 3);
    for (below, is_dir, expected) in [
        ("a.log", false, RuleMatch::Ignore),
        ("keep.log", false, RuleMatch::Whitelist),
        ("x/tmp", true, RuleMatch::Ignore),
        ("main.rs", false, RuleMatch::Unmatched),
    ] {
        assert_eq!(ask_rules(&first, below.as_bytes(), is_dir), Some(expected), "{below}");
        assert_eq!(ask_rules(&second, below.as_bytes(), is_dir), Some(expected), "{below}");
    }
}
