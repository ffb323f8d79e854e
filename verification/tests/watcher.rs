use std::collections::BTreeMap;

use filesystem_watcher::error::FilesystemWatcherError;
use filesystem_watcher::filter::{forward_batch, EventKind, FileEvent};
use filesystem_watcher::path::{ResolvedPath, WatchPath};
use filesystem_watcher::rules::{build_gitignore_set, start_gitignore_set};
use filesystem_watcher::watches::{SelectiveWatches, SetupAction, SetupEvent, WatchMode};

const BASE: &str = "/work";

fn path(text: &str) -> WatchPath {
    WatchPath::new(text.as_bytes().to_vec())
}

fn text(path: &WatchPath) -> String {
    String::from_utf8(path.bytes().clone()).unwrap()
}

/// A directory tree in memory: the entries of each directory, in order, with whether each is a
/// directory; and the directories that cannot be opened or watched.
struct Disk {
    entries: BTreeMap<String, Vec<(String, bool)>>,
    unreadable: Vec<String>,
    unwatchable: Vec<String>,
}

impl Disk {
    fn new() -> Disk {
        let mut entries = BTreeMap::new();
        entries.insert(BASE.to_string(), Vec::new());
        Disk { entries, unreadable: Vec::new(), unwatchable: Vec::new() }
    }

    fn add(&mut self, relative: &str, last_is_dir: bool) {
        let names: Vec<&str> = relative.split('/').collect();
        let mut dir = BASE.to_string();
        for (i, name) in names.iter().enumerate() {
            let is_dir = i + 1 < names.len() || last_is_dir;
            let listing = self.entries.get_mut(&dir).unwrap();
            if !listing.iter().any(|(known, _)| known == name) {
                listing.push((name.to_string(), is_dir));
            }
            dir = format!("{dir}/{name}");
            if is_dir {
                self.entries.entry(dir.clone()).or_default();
            }
        }
    }

    fn create_dir_structure(&mut self, relative: &str) {
        self.add(relative, true);
    }

    /// Adds a file, and tells which notification the watches in place give rise to.
    fn create_file(&mut self, watched: &[String], relative: &str) -> Vec<(FileEvent, String)> {
        self.add(relative, false);
        let file = format!("{BASE}/{relative}");
        let parent = file[..file.rfind('/').unwrap()].to_string();
        if !watched.contains(&parent) {
            return Vec::new();
        }
        let event = FileEvent {
            kind: EventKind::Create,
            paths: vec![ResolvedPath { path: path(&file), canonical: Some(path(&file)) }],
        };
        vec![(event, file)]
    }

    /// The directories that are asked for and those that are watched, where the root can be.
    fn requests(&self) -> (Vec<String>, Vec<String>) {
        let mut asked: Vec<String> = Vec::new();
        let (watched, _) = self.set_up_noting(&mut asked).unwrap();
        (asked, watched)
    }

    fn set_up(&self) -> Result<(Vec<String>, u64), FilesystemWatcherError> {
        self.set_up_noting(&mut Vec::new())
    }

    fn set_up_noting(
        &self,
        asked: &mut Vec<String>,
    ) -> Result<(Vec<String>, u64), FilesystemWatcherError> {
        let mut watched: Vec<String> = Vec::new();
        let mut open: Vec<(String, bool)> = Vec::new();
        let (mut watches, mut action) = SelectiveWatches::new(&path(BASE));
        loop {
            let event = match action {
                SetupAction::Watch { path, mode } => {
                    assert_eq!(mode, WatchMode::NonRecursive);
                    let dir = text(&path);
                    asked.push(dir.clone());
                    if self.unwatchable.contains(&dir) {
                        SetupEvent::Watched(Err(notify::Error::generic("no more watches")))
                    } else {
                        watched.push(dir);
                        SetupEvent::Watched(Ok(()))
                    }
                }
                SetupAction::ReadDir(dir) => {
                    let dir = text(&dir);
                    assert!(watched.contains(&dir));
                    open = self.entries[&dir].clone();
                    open.reverse();
                    SetupEvent::Opened { readable: !self.unreadable.contains(&dir) }
                }
                SetupAction::NextEntry => match open.pop() {
                    Some((name, is_dir)) => SetupEvent::Entry { name: name.into_bytes(), is_dir },
                    None => SetupEvent::EndOfDir,
                },
                SetupAction::Done => return Ok((watched, watches.watched_count())),
                SetupAction::Fail(error) => return Err(error),
            };
            assert!(watches.expects(&event));
            (watches, action) = watches.step(event);
        }
    }
}

fn received(events: Vec<(FileEvent, String)>) -> Vec<String> {
    let root = path(BASE);
    let gi = build_gitignore_set(&start_gitignore_set(&root)).unwrap();
    let batch: Result<Vec<(FileEvent, String)>, String> = Ok(events);
    match forward_batch(batch, &gi, &root) {
        Some(Ok(files)) => files,
        Some(Err(error)) => panic!("{error}"),
        None => Vec::new(),
    }
}

#[test]
fn test_watcher_excludes_node_modules() {
    let mut disk = Disk::new();
    // Create test structure with node_modules
    disk.create_dir_structure("src");
    disk.create_dir_structure("node_modules/some-package");
    disk.create_dir_structure("node_modules/.pnpm/some-package@1.0.0");

    // Initialize watcher
    let (watched, _) = disk.set_up().unwrap();

    // Create files in both src and node_modules
    let files = received(disk.create_file(&watched, "src/main.js"));
    let src_event_found = files.iter().any(|file| file.contains("src/main.js"));
    for file in &files {
        assert!(!file.contains("node_modules"), "got event for: {file}");
    }
    assert!(src_event_found, "Should detect src file changes");

    // Now create a file in node_modules and ensure it's not watched
    let events = disk.create_file(&watched, "node_modules/some-package/index.js");
    assert!(events.is_empty(), "Watcher should not watch node_modules");

    // A notification that came all the same is dropped
    let everywhere = vec![format!("{BASE}/node_modules/some-package")];
    let files = received(disk.create_file(&everywhere, "node_modules/some-package/index.js"));
    assert!(files.is_empty(), "Watcher should not watch node_modules");
}

#[test]
fn test_watcher_excludes_build_directories() {
    let mut disk = Disk::new();
    // Create test structure with various build directories
    disk.create_dir_structure("src");
    disk.create_dir_structure("target/debug");
    disk.create_dir_structure("dist");
    disk.create_dir_structure("build");
    disk.create_dir_structure(".next/cache");

    let (watched, _) = disk.set_up().unwrap();

    // Create files in src
    let files = received(disk.create_file(&watched, "src/lib.rs"));
    for file in &files {
        assert!(
            !file.contains("target/")
                && !file.contains("dist/")
                && !file.contains("build/")
                && !file.contains(".next/"),
            "got event for: {file}"
        );
    }
    assert!(files.iter().any(|file| file.contains("src/lib.rs")), "Should detect src file changes");

    // Create files in build directories and ensure they're not watched
    let everywhere: Vec<String> = ["target/debug", "dist", "build", ".next/cache"]
        .iter()
        .map(|dir| format!("{BASE}/{dir}"))
        .collect();
    for file in ["target/debug/app", "dist/bundle.js", "build/output.js"] {
        assert!(disk.create_file(&watched, file).is_empty(), "{file}");
        assert!(received(disk.create_file(&everywhere, file)).is_empty(), "{file}");
    }
}

#[test]
fn test_watcher_watches_normal_directories() {
    let mut disk = Disk::new();
    // Create normal directory structure
    disk.create_dir_structure("src");
    disk.create_dir_structure("tests");
    disk.create_dir_structure("docs");

    let (watched, count) = disk.set_up().unwrap();
    assert_eq!(count, 4);

    let files = received(disk.create_file(&watched, "src/main.rs"));
    assert!(
        files.iter().any(|file| file.contains("src/main.rs")),
        "Should detect src file changes"
    );

    let mut events = disk.create_file(&watched, "tests/test.rs");
    events.extend(disk.create_file(&watched, "docs/README.md"));
    let files = received(events);
    assert_eq!(files, vec![format!("{BASE}/tests/test.rs"), format!("{BASE}/docs/README.md")]);
}

#[test]
fn exactly_the_reachable_directories_are_watched() {
    let mut disk = Disk::new();
    disk.create_dir_structure("a/b/c");
    disk.create_dir_structure("a/target/d");
    disk.create_dir_structure("e/f");
    disk.create_dir_structure("g/h");
    disk.add("a/file.txt", false);
    disk.unreadable.push(format!("{BASE}/e"));
    disk.unwatchable.push(format!("{BASE}/g"));
    let (mut watched, count) = disk.set_up().unwrap();
    watched.sort();
    let expected: Vec<String> =
        ["", "/a", "/a/b", "/a/b/c", "/e"].iter().map(|dir| format!("{BASE}{dir}")).collect();
    assert_eq!(watched, expected);
    assert_eq!(count, 5);
}

#[test]
fn the_directory_watched_first_is_listed_first() {
    let mut disk = Disk::new();
    disk.create_dir_structure("a/x");
    disk.create_dir_structure("b/y");
    let (watched, _) = disk.set_up().unwrap();
    let expected: Vec<String> =
        ["", "/a", "/b", "/a/x", "/b/y"].iter().map(|dir| format!("{BASE}{dir}")).collect();
    assert_eq!(watched, expected);
}

/// How deep the directories lie below the root.
fn depths(dirs: &[String]) -> Vec<usize> {
    dirs.iter().map(|dir| dir[BASE.len()..].matches('/').count()).collect()
}

#[test]
fn watches_are_placed_breadth_first() {
    let mut disk = Disk::new();
    disk.create_dir_structure("a/b/c");
    disk.create_dir_structure("d/e/f");
    let (watched, count) = disk.set_up().unwrap();
    assert_eq!(depths(&watched), vec![0, 1, 1, 2, 2, 3, 3]);
    assert_eq!(count, 7);
}

#[test]
fn shallow_directories_come_first_when_watches_run_out() {
    let mut disk = Disk::new();
    disk.create_dir_structure("a/b/c");
    disk.create_dir_structure("d/e/f");
    disk.unwatchable.push(format!("{BASE}/a/b"));
    disk.unwatchable.push(format!("{BASE}/d/e"));
    let (asked, watched) = disk.requests();
    assert_eq!(depths(&asked), vec![0, 1, 1, 2, 2]);
    assert_eq!(depths(&watched), vec![0, 1, 1]);
}

#[test]
fn each_directory_is_asked_for_once_and_after_its_parent() {
    let mut disk = Disk::new();
    disk.create_dir_structure("a/b/c");
    disk.create_dir_structure("a/node_modules/x");
    disk.create_dir_structure("d/e");
    disk.unwatchable.push(format!("{BASE}/a/b"));
    let (asked, watched) = disk.requests();
    for (i, dir) in asked.iter().enumerate() {
        assert!(!asked[..i].contains(dir), "{dir}");
        if i > 0 {
            let parent = dir[..dir.rfind('/').unwrap()].to_string();
            assert!(asked[..i].contains(&parent) && watched.contains(&parent), "{dir}");
        }
    }
    let expected: Vec<String> =
        ["", "/a", "/d", "/a/b", "/d/e"].iter().map(|dir| format!("{BASE}{dir}")).collect();
    assert_eq!(asked, expected);
}

#[test]
fn a_root_that_cannot_be_watched_is_an_error() {
    let mut disk = Disk::new();
    disk.create_dir_structure("src");
    disk.unwatchable.push(BASE.to_string());
    match disk.set_up() {
        Err(error @ FilesystemWatcherError::Notify(_)) => {
            assert_eq!(error.message(), "no more watches")
        }
        _ => panic!("the root is not watched"),
    }
}

#[test]
fn directories_are_spelled_from_the_root_as_given() {
    for (root, child) in [
        ("/work", "/work/src"),
        ("/work/", "/work/src"),
        ("/work//x/.", "/work//x/./src"),
        ("work", "work/src"),
        ("/", "/src"),
        ("", "src"),
    ] {
        let (watches, action) = SelectiveWatches::new(&path(root));
        match action {
            SetupAction::Watch { path, mode } => {
                assert_eq!(text(&path), root);
                assert_eq!(mode, WatchMode::NonRecursive);
            }
            other => panic!("{other:?}"),
        }
        let (watches, action) = watches.step(SetupEvent::Watched(Ok(())));
        assert!(matches!(action, SetupAction::ReadDir(dir) if text(&dir) == root));
        let (watches, _) = watches.step(SetupEvent::Opened { readable: true });
        let entry = SetupEvent::Entry { name: b"src".to_vec(), is_dir: true };
        let (watches, action) = watches.step(entry);
        match action {
            SetupAction::Watch { path, mode } => {
                assert_eq!(text(&path), child);
                assert_eq!(mode, WatchMode::NonRecursive);
            }
            other => panic!("{other:?}"),
        }
        let (watches, _) = watches.step(SetupEvent::Watched(Ok(())));
        let (watches, action) = watches.step(SetupEvent::EndOfDir);
        assert!(matches!(action, SetupAction::ReadDir(dir) if text(&dir) == child));
        assert_eq!(watches.watched_count(), 2);
    }
}

#[test]
fn things_are_told_only_when_expected() {
    let (watches, _) = SelectiveWatches::new(&path(BASE));
    assert!(!watches.expects(&SetupEvent::EndOfDir));
    assert!(!watches.expects(&SetupEvent::Opened { readable: true }));
    let (watches, _) = watches.step(SetupEvent::Watched(Ok(())));
    assert!(watches.expects(&SetupEvent::Opened { readable: true }));
    let (watches, _) = watches.step(SetupEvent::Opened { readable: true });
    assert!(!watches.expects(&SetupEvent::Entry { name: b"a/b".to_vec(), is_dir: true }));
    assert!(!watches.expects(&SetupEvent::Entry { name: b".".to_vec(), is_dir: true }));
    assert!(!watches.expects(&SetupEvent::Entry { name: b"".to_vec(), is_dir: true }));
    assert!(watches.expects(&SetupEvent::Entry { name: b"a".to_vec(), is_dir: true }));
    let (watches, action) = watches.step(SetupEvent::EndOfDir);
    assert!(matches!(action, SetupAction::Done));
    assert!(!watches.expects(&SetupEvent::EndOfDir));
}
