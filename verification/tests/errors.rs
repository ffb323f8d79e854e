use filesystem_watcher::error::FilesystemWatcherError;

#[test]
fn own_errors_are_described() {
    assert_eq!(
        FilesystemWatcherError::GitignoreBuilder("bad glob".to_string()).message(),
        "Failed to build gitignore: bad glob"
    );
    assert_eq!(FilesystemWatcherError::InvalidPath("/x".to_string()).message(), "Invalid path: /x");
}

#[test]
fn carried_errors_show_their_own_text() {
    let error = FilesystemWatcherError::from(notify::Error::generic("no more watches"));
    assert!(matches!(error, FilesystemWatcherError::Notify(_)));
    assert_eq!(error.message(), notify::Error::generic("no more watches").to_string());

    let error = FilesystemWatcherError::from(ignore::Error::InvalidDefinition);
    assert!(matches!(error, FilesystemWatcherError::Ignore(_)));
    assert_eq!(error.message(), ignore::Error::InvalidDefinition.to_string());

    let cause = std::io::Error::new(std::io::ErrorKind::Other, "disk on fire");
    let error = FilesystemWatcherError::from(cause);
    assert!(matches!(error, FilesystemWatcherError::IoError(_)));
    assert_eq!(error.message(), "disk on fire");
}
