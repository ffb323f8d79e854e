//! What can go wrong while a watcher is set up.

use vstd::prelude::*;
use vstd::std_specs::convert::FromSpecImpl;
use vstd::string::*;

verus! {

/// An error of the notification backend, carried as it came.
#[verifier::external_type_specification]
#[verifier::external_body]
pub struct ExNotifyError(notify::Error);

/// An error of the directory walk or of the ignore rules, carried as it came.
#[verifier::external_type_specification]
#[verifier::external_body]
pub struct ExIgnoreError(ignore::Error);

/// An error of the operating system, carried as it came.
#[verifier::external_type_specification]
#[verifier::external_body]
pub struct ExIoError(std::io::Error);

/// Why a watcher could not be set up.
#[derive(Debug)]
pub enum FilesystemWatcherError {
    Notify(notify::Error),
    Ignore(ignore::Error),
    IoError(std::io::Error),
    GitignoreBuilder(String),
    InvalidPath(String),
}

impl FilesystemWatcherError {
    /// The text shown for the error. An error that was carried as it came shows its own text.
    pub fn message(&self) -> (text: String)
        ensures
            match self {
                FilesystemWatcherError::Notify(error) => to_string_from_display_ensures(error, text),
                FilesystemWatcherError::Ignore(error) => to_string_from_display_ensures(error, text),
                FilesystemWatcherError::IoError(error) => to_string_from_display_ensures(error, text),
                FilesystemWatcherError::GitignoreBuilder(reason) => text@
                    == "Failed to build gitignore: "@ + reason@,
                FilesystemWatcherError::InvalidPath(path) => text@ == "Invalid path: "@ + path@,
            },
    {
        match self {
            FilesystemWatcherError::Notify(error) => error.to_string(),
            FilesystemWatcherError::Ignore(error) => error.to_string(),
            FilesystemWatcherError::IoError(error) => error.to_string(),
            FilesystemWatcherError::GitignoreBuilder(reason) => {
                let mut text = "Failed to build gitignore: ".to_string();
                text.append(reason.as_str());
                text
            },
            FilesystemWatcherError::InvalidPath(path) => {
                let mut text = "Invalid path: ".to_string();
                text.append(path.as_str());
                text
            },
        }
    }
}

impl From<notify::Error> for FilesystemWatcherError {
    fn from(error: notify::Error) -> (wrapped: FilesystemWatcherError) {
        FilesystemWatcherError::Notify(error)
    }
}

impl FromSpecImpl<notify::Error> for FilesystemWatcherError {
    open spec fn obeys_from_spec() -> bool {
        true
    }

    open spec fn from_spec(error: notify::Error) -> FilesystemWatcherError {
        FilesystemWatcherError::Notify(error)
    }
}

impl From<ignore::Error> for FilesystemWatcherError {
    fn from(error: ignore::Error) -> (wrapped: FilesystemWatcherError) {
        FilesystemWatcherError::Ignore(error)
    }
}

impl FromSpecImpl<ignore::Error> for FilesystemWatcherError {
    open spec fn obeys_from_spec() -> bool {
        true
    }

    open spec fn from_spec(error: ignore::Error) -> FilesystemWatcherError {
        FilesystemWatcherError::Ignore(error)
    }
}

impl From<std::io::Error> for FilesystemWatcherError {
    fn from(error: std::io::Error) -> (wrapped: FilesystemWatcherError) {
        FilesystemWatcherError::IoError(error)
    }
}

impl FromSpecImpl<std::io::Error> for FilesystemWatcherError {
    open spec fn obeys_from_spec() -> bool {
        true
    }

    open spec fn from_spec(error: std::io::Error) -> FilesystemWatcherError {
        FilesystemWatcherError::IoError(error)
    }
}

} // verus!
