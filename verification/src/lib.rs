//! Decisions behind a filesystem watcher: which directories are watched, which
//! ignore files are read, and which change notifications are passed on.

pub mod collection;
pub mod coverage;
pub mod driving;
pub mod error;
pub mod exclude;
pub mod filter;
pub mod forwarding;
pub mod path;
pub mod rules;
pub mod scan;
pub mod startup;
pub mod watches;
