use filesystem_watcher::error::FilesystemWatcherError;
use filesystem_watcher::path::WatchPath;
use filesystem_watcher::rules::{build_gitignore_set, start_gitignore_set};
use filesystem_watcher::startup::{
    Startup, StartupAction, StartupEvent, CHANNEL_CAPACITY, DEBOUNCE_MILLIS,
};
use ignore::gitignore::Gitignore;

fn path(text: &str) -> WatchPath {
    WatchPath::new(text.as_bytes().to_vec())
}

fn no_rules() -> Gitignore {
    build_gitignore_set(&start_gitignore_set(&path("/repo"))).unwrap()
}

fn tell(startup: Startup, event: StartupEvent) -> (Startup, StartupAction) {
    assert!(startup.expects(&event));
    startup.step(event)
}

#[test]
fn a_watcher_comes_up_in_order() {
    let (startup, action) = Startup::new(&path("/link"));
    assert!(matches!(action, StartupAction::Resolve(asked) if asked == path("/link")));
    assert!(!startup.expects(&StartupEvent::RulesBuilt(Ok(no_rules()))));
    let (startup, action) = tell(startup, StartupEvent::Resolved(Some(path("/repo"))));
    assert!(matches!(action, StartupAction::BuildRules(root) if root == path("/repo")));
    let (startup, action) = tell(startup, StartupEvent::RulesBuilt(Ok(no_rules())));
    match action {
        StartupAction::OpenDebouncer { rules, root, debounce_millis, capacity } => {
            assert!(rules.is_empty());
            assert_eq!(root, path("/repo"));
            assert_eq!(debounce_millis, 200);
            assert_eq!(capacity, 64);
        }
        _ => panic!("the debouncer comes after the rules"),
    }
    let (startup, action) = tell(startup, StartupEvent::DebouncerOpened(Ok(())));
    assert!(matches!(action, StartupAction::PlaceWatches(root) if root == path("/repo")));
    let (startup, action) = tell(startup, StartupEvent::WatchesPlaced(Ok(())));
    assert!(matches!(action, StartupAction::Ready(root) if root == path("/repo")));
    assert!(!startup.expects(&StartupEvent::WatchesPlaced(Ok(()))));
    assert_eq!((DEBOUNCE_MILLIS, CHANNEL_CAPACITY), (200, 64));
}

#[test]
fn a_root_that_cannot_be_resolved_is_used_as_given() {
    let (startup, _) = Startup::new(&path("/gone"));
    let (_, action) = tell(startup, StartupEvent::Resolved(None));
    assert!(matches!(action, StartupAction::BuildRules(root) if root == path("/gone")));
}

#[test]
fn the_root_is_handed_on_as_it_is_spelled() {
    let (startup, action) = Startup::new(&path("repo//sub/."));
    assert!(matches!(action, StartupAction::Resolve(asked) if asked.bytes() == b"repo//sub/."));
    let (startup, action) = tell(startup, StartupEvent::Resolved(None));
    assert!(matches!(action, StartupAction::BuildRules(root) if root.bytes() == b"repo//sub/."));
    let (startup, _) = tell(startup, StartupEvent::RulesBuilt(Ok(no_rules())));
    let (startup, action) = tell(startup, StartupEvent::DebouncerOpened(Ok(())));
    assert!(matches!(action, StartupAction::PlaceWatches(root) if root.bytes() == b"repo//sub/."));
    let (_, action) = tell(startup, StartupEvent::WatchesPlaced(Ok(())));
    assert!(matches!(action, StartupAction::Ready(root) if root.bytes() == b"repo//sub/."));
}

#[test]
fn failing_rules_end_the_startup() {
    let (startup, _) = Startup::new(&path("/repo"));
    let (startup, _) = tell(startup, StartupEvent::Resolved(None));
    let error = FilesystemWatcherError::InvalidPath("/repo".to_string());
    let (startup, action) = tell(startup, StartupEvent::RulesBuilt(Err(error)));
    assert!(matches!(action, StartupAction::Fail(FilesystemWatcherError::InvalidPath(_))));
    assert!(!startup.expects(&StartupEvent::DebouncerOpened(Ok(()))));
}

#[test]
fn a_failing_debouncer_ends_the_startup() {
    let (startup, _) = Startup::new(&path("/repo"));
    let (startup, _) = tell(startup, StartupEvent::Resolved(None));
    let (startup, _) = tell(startup, StartupEvent::RulesBuilt(Ok(no_rules())));
    let error = notify::Error::generic("no inotify");
    let (_, action) = tell(startup, StartupEvent::DebouncerOpened(Err(error)));
    match action {
        StartupAction::Fail(error @ FilesystemWatcherError::Notify(_)) => {
            assert_eq!(error.message(), "no inotify")
        }
        _ => panic!("the startup fails"),
    }
}

#[test]
fn failing_watches_end_the_startup() {
    let (startup, _) = Startup::new(&path("/repo"));
    let (startup, _) = tell(startup, StartupEvent::Resolved(None));
    let (startup, _) = tell(startup, StartupEvent::RulesBuilt(Ok(no_rules())));
    let (startup, _) = tell(startup, StartupEvent::DebouncerOpened(Ok(())));
    let error = FilesystemWatcherError::from(notify::Error::path_not_found());
    let (_, action) = tell(startup, StartupEvent::WatchesPlaced(Err(error)));
    assert!(matches!(action, StartupAction::Fail(FilesystemWatcherError::Notify(_))));
}
