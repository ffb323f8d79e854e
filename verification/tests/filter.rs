use filesystem_watcher::filter::{
    check_path, debounced_should_forward, forward_batch, has_excluded, path_allowed,
    try_forward_batch, try_path_allowed, try_should_forward, BatchOutcome, EventKind, FileEvent,
    PathCheck,
};
use filesystem_watcher::path::{ResolvedPath, WatchPath};
use filesystem_watcher::rules::{
    ask_rules, build_gitignore_set, gitignore_outcome, start_gitignore_set, RuleMatch,
};
use ignore::gitignore::Gitignore;

fn path(text: &str) -> WatchPath {
    WatchPath::new(text.as_bytes().to_vec())
}

fn resolved(text: &str) -> ResolvedPath {
    ResolvedPath { path: path(text), canonical: None }
}

fn rules(root: &str, lines: &[&str]) -> Gitignore {
    let mut builder = start_gitignore_set(&path(root));
    for line in lines {
        builder.add_line(None, line).unwrap();
    }
    build_gitignore_set(&builder).unwrap()
}

fn allowed(text: &str, gi: &Gitignore) -> bool {
    path_allowed(&resolved(text), gi, &path("/repo"))
}

fn event(kind: EventKind, paths: &[&str]) -> FileEvent {
    FileEvent { kind, paths: paths.iter().map(|text| resolved(text)).collect() }
}

#[test]
fn without_rules_only_excluded_directories_are_dropped() {
    let gi = rules("/repo", &[]);
    assert!(gi.is_empty());
    assert!(allowed("/repo/src/main.rs", &gi));
    assert!(allowed("/repo", &gi));
    assert!(!allowed("/repo/node_modules/pkg/index.js", &gi));
    assert!(!allowed("/repo/a/b/target", &gi));
}

#[test]
fn ignored_paths_are_dropped() {
    let gi = rules("/repo", &["*.log", "/out/"]);
    assert!(!allowed("/repo/a.log", &gi));
    assert!(!allowed("/repo/deep/down/a.log", &gi));
    assert!(allowed("/repo/a.txt", &gi));
    // A path without an extension is taken for a directory.
    assert!(!allowed("/repo/out", &gi));
    assert!(!allowed("/repo/out/report.html", &gi));
    assert!(allowed("/repo/sub/out", &gi));
}

#[test]
fn a_path_with_an_extension_is_not_taken_for_a_directory() {
    let gi = rules("/repo", &["cache.d/"]);
    assert!(allowed("/repo/cache.d", &gi));
    assert!(!allowed("/repo/cache.d/x", &gi));
}

#[test]
fn exempted_paths_pass() {
    let gi = rules("/repo", &["*.log", "!keep.log"]);
    assert!(!allowed("/repo/a.log", &gi));
    assert!(allowed("/repo/keep.log", &gi));
}

#[test]
fn rules_do_not_reach_beyond_the_root() {
    let gi = rules("/repo", &["*.log"]);
    assert!(allowed("/elsewhere/a.log", &gi));
    assert!(allowed("/repository/a.log", &gi));
    assert!(!allowed("/elsewhere/dist/a.txt", &gi));
}

#[test]
fn an_excluded_directory_above_the_root_blocks_everything() {
    let root = path("/home/build/repo");
    let gi = rules("/home/build/repo", &[]);
    assert!(!path_allowed(&resolved("/home/build/repo/src/main.rs"), &gi, &root));
    assert!(has_excluded(&root));
    assert!(!has_excluded(&path("/home/repo")));
}

#[test]
fn rules_of_an_empty_root_take_rooted_paths() {
    let gi = rules("", &["*.log"]);
    let root = path("");
    assert!(!path_allowed(&resolved("/var/a.log"), &gi, &root));
    assert!(path_allowed(&resolved("/var/a.txt"), &gi, &root));
}

#[test]
fn a_leading_dot_is_taken_off_the_root_of_the_rules() {
    assert_eq!(rules("./repo", &["*.log"]).path(), std::path::Path::new("repo"));
    assert_eq!(rules("/repo", &["*.log"]).path(), std::path::Path::new("/repo"));
}

#[test]
fn names_that_are_not_utf8_reach_the_rules() {
    let gi = rules("/repo", &["*.log"]);
    let named = |name: &[u8]| ResolvedPath {
        path: path("/repo").join(name),
        canonical: None,
    };
    assert!(!path_allowed(&named(b"a\xff.log"), &gi, &path("/repo")));
    assert!(path_allowed(&named(b"a\xff.txt"), &gi, &path("/repo")));
}

#[test]
fn the_canonical_form_decides() {
    let gi = rules("/repo", &[]);
    let link = ResolvedPath {
        path: path("/repo/deps/index.js"),
        canonical: Some(path("/repo/node_modules/index.js")),
    };
    assert!(!path_allowed(&link, &gi, &path("/repo")));
}

#[test]
fn what_the_rules_are_asked() {
    let root = path("/repo");
    assert_eq!(check_path(&path("/repo/dist/a.js"), &root), PathCheck::Excluded);
    assert_eq!(check_path(&path("/tmp/a.js"), &root), PathCheck::OutsideRoot);
    assert_eq!(
        check_path(&path("/repo/src/a.js"), &root),
        PathCheck::AskRules { path: b"src/a.js".to_vec(), is_dir: false }
    );
    assert_eq!(
        check_path(&path("/repo/src"), &root),
        PathCheck::AskRules { path: b"src".to_vec(), is_dir: true }
    );
    assert_eq!(
        check_path(&root, &root),
        PathCheck::AskRules { path: b"".to_vec(), is_dir: true }
    );
}

#[test]
fn the_rules_are_asked_about_the_path_as_it_is_spelled() {
    let root = path("/repo/");
    for (given, below, is_dir) in [
        ("/repo/a//b.js", "a//b.js", false),
        ("/repo//a/./b", "a/./b", true),
        ("/repo/a/", "a", true),
        ("/repo/a.js/.", "a.js", false),
        ("/repo/./a.js", "a.js", false),
    ] {
        assert_eq!(
            check_path(&path(given), &root),
            PathCheck::AskRules { path: below.as_bytes().to_vec(), is_dir },
            "{given}"
        );
    }
    let gi = rules("/repo", &["a/b.js"]);
    assert!(!path_allowed(&resolved("/repo/a/b.js"), &gi, &root));
    // The rule does not speak of the path when it is spelled with two separators in a row.
    assert!(path_allowed(&resolved("/repo/a//b.js"), &gi, &root));
}

#[test]
fn rules_are_not_asked_about_what_starts_at_the_root() {
    let gi = rules("a", &["*.log"]);
    let root = path("a");
    assert_eq!(ask_rules(&gi, b"a/b.log", false), Some(RuleMatch::Ignore));
    assert_eq!(ask_rules(&gi, b"a//b.log", false), None);
    assert_eq!(ask_rules(&gi, b"/b.log", false), None);
    assert_eq!(ask_rules(&gi, b".//b.log", false), None);
    assert_eq!(ask_rules(&rules("a", &[]), b"/b.log", false), Some(RuleMatch::Unmatched));
    assert_eq!(ask_rules(&rules(".", &["*.log"]), b"./b.log", false), Some(RuleMatch::Ignore));
    assert_eq!(ask_rules(&rules("", &["!b.log"]), b"/b.log", false), Some(RuleMatch::Whitelist));

    assert_eq!(try_path_allowed(&resolved("a/a//b.log"), &gi, &root), None);
    assert_eq!(try_path_allowed(&resolved("a/a/b.log"), &gi, &root), Some(false));
    assert_eq!(try_path_allowed(&resolved("a/dist/a//b.log"), &gi, &root), Some(false));

    let asked = event(EventKind::Create, &["a/c.txt", "a/a//b.log"]);
    assert_eq!(try_should_forward(&asked, &gi, &root), None);
    let settled = event(EventKind::Create, &["a/c.log", "a/a//b.log"]);
    assert_eq!(try_should_forward(&settled, &gi, &root), Some(false));
    let access = event(EventKind::Access, &["a/a//b.log"]);
    assert_eq!(try_should_forward(&access, &gi, &root), Some(false));

    let batch: Result<Vec<(FileEvent, u32)>, &str> = Ok(vec![(settled, 1), (asked, 2)]);
    assert_eq!(try_forward_batch(batch, &gi, &root), BatchOutcome::Unanswerable);
    let batch: Result<Vec<(FileEvent, u32)>, &str> = Ok(vec![(access, 1)]);
    assert_eq!(try_forward_batch(batch, &gi, &root), BatchOutcome::Drop);
    let batch: Result<Vec<(FileEvent, u32)>, &str> =
        Ok(vec![(event(EventKind::Create, &["a/c.txt"]), 3)]);
    assert_eq!(try_forward_batch(batch, &gi, &root), BatchOutcome::Send(Ok(vec![3])));
    let batch: Result<Vec<(FileEvent, u32)>, &str> = Err("queue overflow");
    assert_eq!(try_forward_batch(batch, &gi, &root), BatchOutcome::Send(Err("queue overflow")));
}

#[test]
fn rules_of_an_absolute_root_can_be_asked_about_every_path() {
    let gi = rules("/repo", &["*.log"]);
    let root = path("/repo");
    for text in ["/repo", "/repo//a.txt", "/repo/repo//a.txt", "/repo/.//a.txt", "/x//a.log"] {
        assert_eq!(try_path_allowed(&resolved(text), &gi, &root), Some(true), "{text}");
    }
}

#[test]
fn only_an_ignoring_rule_drops() {
    assert!(RuleMatch::Ignore.is_ignore());
    assert!(!RuleMatch::Unmatched.is_ignore());
    assert!(!RuleMatch::Whitelist.is_ignore());
}

#[test]
fn rules_that_do_not_compile_are_an_error() {
    let mut builder = start_gitignore_set(&path("/repo"));
    builder.add_line(None, &"?".repeat(2_000_000)).unwrap();
    let error = build_gitignore_set(&builder).unwrap_err();
    assert!(matches!(
        error,
        filesystem_watcher::error::FilesystemWatcherError::Ignore(ignore::Error::Glob { .. })
    ));
}

#[test]
fn a_failure_to_compile_is_carried_as_it_came() {
    assert!(gitignore_outcome(Ok(Gitignore::empty())).unwrap().is_empty());
    let error = gitignore_outcome(Err(ignore::Error::InvalidDefinition)).unwrap_err();
    assert!(matches!(
        error,
        filesystem_watcher::error::FilesystemWatcherError::Ignore(ignore::Error::InvalidDefinition)
    ));
}

#[test]
fn access_events_are_dropped() {
    let gi = rules("/repo", &[]);
    let root = path("/repo");
    assert!(!debounced_should_forward(&event(EventKind::Access, &["/repo/a.rs"]), &gi, &root));
    for kind in [
        EventKind::Any,
        EventKind::Create,
        EventKind::Modify,
        EventKind::Remove,
        EventKind::Other,
    ] {
        assert!(!kind.is_access());
        assert!(debounced_should_forward(&event(kind, &["/repo/a.rs"]), &gi, &root));
        assert!(debounced_should_forward(&event(kind, &[]), &gi, &root));
    }
}

#[test]
fn one_disallowed_path_drops_the_event() {
    let gi = rules("/repo", &["*.log"]);
    let root = path("/repo");
    let moved = event(EventKind::Modify, &["/repo/a.rs", "/repo/a.log"]);
    assert!(!debounced_should_forward(&moved, &gi, &root));
    let moved = event(EventKind::Modify, &["/repo/a.rs", "/repo/b.rs"]);
    assert!(debounced_should_forward(&moved, &gi, &root));
}

#[test]
fn a_batch_keeps_what_passes_in_order() {
    let gi = rules("/repo", &["*.log"]);
    let root = path("/repo");
    let batch: Result<Vec<(FileEvent, u32)>, &str> = Ok(vec![
        (event(EventKind::Create, &["/repo/a.rs"]), 1),
        (event(EventKind::Create, &["/repo/a.log"]), 2),
        (event(EventKind::Access, &["/repo/a.rs"]), 3),
        (event(EventKind::Remove, &["/repo/b.rs"]), 4),
        (event(EventKind::Create, &["/repo/dist/b.rs"]), 5),
    ]);
    assert_eq!(forward_batch(batch, &gi, &root), Some(Ok(vec![1, 4])));
}

#[test]
fn a_batch_passes_again_unchanged() {
    let gi = rules("/repo", &["*.log"]);
    let root = path("/repo");
    let batch: Result<Vec<(FileEvent, u32)>, &str> = Ok(vec![
        (event(EventKind::Create, &["/repo/a.rs"]), 1),
        (event(EventKind::Remove, &["/repo/b.rs"]), 4),
    ]);
    assert_eq!(forward_batch(batch, &gi, &root), Some(Ok(vec![1, 4])));
}

#[test]
fn a_batch_that_is_dropped_whole_sends_nothing() {
    let gi = rules("/repo", &[]);
    let root = path("/repo");
    let batch: Result<Vec<(FileEvent, u32)>, &str> =
        Ok(vec![(event(EventKind::Create, &["/repo/target/debug/app"]), 1)]);
    assert_eq!(forward_batch(batch, &gi, &root), None);
    let empty: Result<Vec<(FileEvent, u32)>, &str> = Ok(vec![]);
    assert_eq!(forward_batch(empty, &gi, &root), None);
}

#[test]
fn errors_are_always_sent() {
    let gi = rules("/repo", &["*"]);
    let batch: Result<Vec<(FileEvent, u32)>, &str> = Err("queue overflow");
    assert_eq!(forward_batch(batch, &gi, &path("/repo")), Some(Err("queue overflow")));
}
