//! Which directories are watched.
//!
//! The root and the directories below it are watched one by one, breadth-first, without the
//! excluded ones and all that lies in them. The traversal itself touches no disk: it is told how each thing it
//! asked for came out, and answers with what to do next.

use std::collections::VecDeque;

use vstd::prelude::*;

use crate::error::FilesystemWatcherError;
use crate::exclude::{excluded_name, is_excluded_name};
use crate::path::{copy_bytes, is_plain_name, join_all, name_views, plain_name, WatchPath};

verus! {

/// What the traversal is told.
#[derive(Debug)]
pub enum SetupEvent {
    /// How placing the watch came out.
    Watched(Result<(), notify::Error>),
    /// Whether the directory could be opened for listing.
    Opened { readable: bool },
    /// The next entry of the directory, and whether it leads to a directory.
    Entry { name: Vec<u8>, is_dir: bool },
    /// The directory has no further entry.
    EndOfDir,
}

/// What the traversal is told, over views.
pub enum SetupInput {
    Watched(Result<(), notify::Error>),
    Opened { readable: bool },
    Entry { name: Seq<u8>, is_dir: bool },
    EndOfDir,
}

impl View for SetupEvent {
    type V = SetupInput;

    open spec fn view(&self) -> SetupInput {
        match *self {
            SetupEvent::Watched(outcome) => SetupInput::Watched(outcome),
            SetupEvent::Opened { readable } => SetupInput::Opened { readable },
            SetupEvent::Entry { name, is_dir } => SetupInput::Entry { name: name@, is_dir },
            SetupEvent::EndOfDir => SetupInput::EndOfDir,
        }
    }
}

/// How far a watch on a directory reaches.
#[derive(Debug, Clone, Copy, PartialEq, Eq, Structural)]
pub enum WatchMode {
    /// To all that lies below the directory.
    Recursive,
    /// To the entries of the directory, though not to what lies in its subdirectories.
    NonRecursive,
}

/// What is to be done next.
#[derive(Debug)]
pub enum SetupAction {
    /// Watch this directory.
    Watch { path: WatchPath, mode: WatchMode },
    /// Open this directory for listing.
    ReadDir(WatchPath),
    /// Read the next entry of the open directory.
    NextEntry,
    /// All watches are in place.
    Done,
    /// Give up.
    Fail(FilesystemWatcherError),
}

/// What is to be done next, over spellings.
pub enum SetupOutput {
    Watch { path: Seq<u8>, mode: WatchMode },
    ReadDir(Seq<u8>),
    NextEntry,
    Done,
    Fail(FilesystemWatcherError),
}

impl View for SetupAction {
    type V = SetupOutput;

    open spec fn view(&self) -> SetupOutput {
        match *self {
            SetupAction::Watch { path, mode } => SetupOutput::Watch { path: path@, mode },
            SetupAction::ReadDir(path) => SetupOutput::ReadDir(path@),
            SetupAction::NextEntry => SetupOutput::NextEntry,
            SetupAction::Done => SetupOutput::Done,
            SetupAction::Fail(error) => SetupOutput::Fail(error),
        }
    }
}

/// What the traversal waits for. A directory is held by the names of the entries through which
/// it is reached from the root.
#[derive(Debug)]
enum Phase {
    WatchingRoot,
    Opening(Vec<Vec<u8>>),
    Listing(Vec<Vec<u8>>),
    Watching { dir: Vec<Vec<u8>>, name: Vec<u8> },
    Finished,
}

/// What the traversal waits for, over views.
pub enum SetupPhase {
    /// The watch on the root.
    WatchingRoot,
    /// The directory to be opened.
    Opening(Seq<Seq<u8>>),
    /// The next entry of the directory.
    Listing(Seq<Seq<u8>>),
    /// The watch on the entry `name` of the directory `dir`.
    Watching { dir: Seq<Seq<u8>>, name: Seq<u8> },
    /// Nothing more.
    Finished,
}

impl View for Phase {
    type V = SetupPhase;

    closed spec fn view(&self) -> SetupPhase {
        match *self {
            Phase::WatchingRoot => SetupPhase::WatchingRoot,
            Phase::Opening(dir) => SetupPhase::Opening(name_views(dir@)),
            Phase::Listing(dir) => SetupPhase::Listing(name_views(dir@)),
            Phase::Watching { dir, name } => SetupPhase::Watching {
                dir: name_views(dir@),
                name: name@,
            },
            Phase::Finished => SetupPhase::Finished,
        }
    }
}

/// The state of a traversal. Directories stand in it by the names of the entries through which
/// they are reached from the root.
pub struct SetupState {
    /// The spelling of the directory to start from.
    pub root: Seq<u8>,
    /// What the traversal waits for.
    pub phase: SetupPhase,
    /// The queue of watched directories that are yet to be listed; the first one comes next.
    pub pending: Seq<Seq<Seq<u8>>>,
    /// How many watches are in place, as far as the count goes.
    pub watched_count: u64,
}

/// A traversal that sets up selective watches.
#[derive(Debug)]
pub struct SelectiveWatches {
    root: WatchPath,
    phase: Phase,
    pending: VecDeque<Vec<Vec<u8>>>,
    watched_count: u64,
}

/// The directories of the queue, as sequences of names.
spec fn dir_views(dirs: Seq<Vec<Vec<u8>>>) -> Seq<Seq<Seq<u8>>> {
    dirs.map_values(|dir: Vec<Vec<u8>>| name_views(dir@))
}

impl View for SelectiveWatches {
    type V = SetupState;

    closed spec fn view(&self) -> SetupState {
        SetupState {
            root: self.root@,
            phase: self.phase@,
            pending: dir_views(self.pending@),
            watched_count: self.watched_count,
        }
    }
}

/// A copy of the names, with one more at the end.
fn with_name(names: &Vec<Vec<u8>>, name: Vec<u8>) -> (longer: Vec<Vec<u8>>)
    ensures
        name_views(longer@) == name_views(names@).push(name@),
{
    let mut longer: Vec<Vec<u8>> = Vec::new();
    for i in 0..names.len()
        invariant
            name_views(longer@) == name_views(names@).take(i as int),
    {
        let ghost done = name_views(longer@);
        longer.push(copy_bytes(names[i].as_slice()));
        assert(name_views(longer@) == done.push(names@[i as int]@));
        assert(name_views(names@).take(i + 1) == done.push(names@[i as int]@));
    }
    let ghost done = name_views(longer@);
    longer.push(name);
    assert(name_views(longer@) == done.push(name@));
    longer
}

/// The start of a traversal.
pub open spec fn setup_start(root: Seq<u8>) -> SetupState {
    SetupState {
        root,
        phase: SetupPhase::WatchingRoot,
        pending: Seq::empty(),
        watched_count: 0,
    }
}

/// Whether a traversal can be told this now.
pub open spec fn setup_expects(phase: SetupPhase, input: SetupInput) -> bool {
    match phase {
        SetupPhase::WatchingRoot => input is Watched,
        SetupPhase::Opening(_) => input is Opened,
        SetupPhase::Listing(_) => match input {
            SetupInput::Entry { name, is_dir: _ } => plain_name(name),
            _ => input is EndOfDir,
        },
        SetupPhase::Watching { .. } => input is Watched,
        SetupPhase::Finished => false,
    }
}

/// The count after one more watch. It stops at the largest number that it can hold.
pub open spec fn count_one_more(count: u64) -> u64 {
    if count < u64::MAX {
        (count + 1) as u64
    } else {
        count
    }
}

/// The traversal turns to the directory at the head of the queue, if one is left.
pub open spec fn next_dir(state: SetupState) -> (SetupState, SetupOutput) {
    if state.pending.len() > 0 {
        (
            SetupState {
                phase: SetupPhase::Opening(state.pending.first()),
                pending: state.pending.drop_first(),
                ..state
            },
            SetupOutput::ReadDir(join_all(state.root, state.pending.first())),
        )
    } else {
        (SetupState { phase: SetupPhase::Finished, ..state }, SetupOutput::Done)
    }
}

/// What a traversal makes of what it is told.
pub open spec fn setup_step(state: SetupState, input: SetupInput) -> (SetupState, SetupOutput) {
    match (state.phase, input) {
        (SetupPhase::WatchingRoot, SetupInput::Watched(Ok(_))) => next_dir(
            SetupState {
                pending: seq![Seq::empty()],
                watched_count: count_one_more(state.watched_count),
                ..state
            },
        ),
        (SetupPhase::WatchingRoot, SetupInput::Watched(Err(error))) => (
            SetupState { phase: SetupPhase::Finished, ..state },
            SetupOutput::Fail(FilesystemWatcherError::Notify(error)),
        ),
        (SetupPhase::Opening(dir), SetupInput::Opened { readable: true }) => (
            SetupState { phase: SetupPhase::Listing(dir), ..state },
            SetupOutput::NextEntry,
        ),
        (SetupPhase::Opening(dir), SetupInput::Opened { readable: false }) => next_dir(state),
        (SetupPhase::Listing(dir), SetupInput::Entry { name, is_dir }) => if is_dir
            && !excluded_name(name) {
            (
                SetupState { phase: SetupPhase::Watching { dir, name }, ..state },
                SetupOutput::Watch {
                    path: join_all(state.root, dir.push(name)),
                    mode: WatchMode::NonRecursive,
                },
            )
        } else {
            (state, SetupOutput::NextEntry)
        },
        (SetupPhase::Listing(dir), SetupInput::EndOfDir) => next_dir(state),
        (SetupPhase::Watching { dir, name }, SetupInput::Watched(Ok(_))) => (
            SetupState {
                phase: SetupPhase::Listing(dir),
                pending: state.pending.push(dir.push(name)),
                watched_count: count_one_more(state.watched_count),
                ..state
            },
            SetupOutput::NextEntry,
        ),
        (SetupPhase::Watching { dir, name }, SetupInput::Watched(Err(_))) => (
            SetupState { phase: SetupPhase::Listing(dir), ..state },
            SetupOutput::NextEntry,
        ),
        _ => arbitrary(),
    }
}

impl SelectiveWatches {
    /// Starts a traversal: the root is to be watched first.
    pub fn new(root: &WatchPath) -> (start: (SelectiveWatches, SetupAction))
        ensures
            start.0@ == setup_start(root@),
            start.1@ == (SetupOutput::Watch { path: root@, mode: WatchMode::NonRecursive }),
    {
        let watches = SelectiveWatches {
            root: root.clone(),
            phase: Phase::WatchingRoot,
            pending: VecDeque::new(),
            watched_count: 0,
        };
        assert(watches@.pending == Seq::<Seq<Seq<u8>>>::empty());
        (watches, SetupAction::Watch { path: root.clone(), mode: WatchMode::NonRecursive })
    }

    /// How many watches are in place.
    pub fn watched_count(&self) -> (count: u64)
        ensures
            count == self@.watched_count,
    {
        self.watched_count
    }

    /// Whether the traversal can be told this now.
    pub fn expects(&self, event: &SetupEvent) -> (expected: bool)
        ensures
            expected == setup_expects(self@.phase, event@),
    {
        match &self.phase {
            Phase::WatchingRoot => matches!(event, SetupEvent::Watched(_)),
            Phase::Opening(_) => matches!(event, SetupEvent::Opened { .. }),
            Phase::Listing(_) => match event {
                SetupEvent::Entry { name, is_dir: _ } => is_plain_name(name.as_slice()),
                SetupEvent::EndOfDir => true,
                _ => false,
            },
            Phase::Watching { .. } => matches!(event, SetupEvent::Watched(_)),
            Phase::Finished => false,
        }
    }

    /// Turns to the next directory to list.
    fn turn_to_next_dir(self) -> (next: (SelectiveWatches, SetupAction))
        ensures
            (next.0@, next.1@) == next_dir(self@),
    {
        let SelectiveWatches { root, phase: _, mut pending, watched_count } = self;
        match pending.pop_front() {
            Some(dir) => {
                proof {
                    assert(self@.pending.first() == name_views(dir@));
                    assert(self@.pending.drop_first() == dir_views(pending@));
                }
                let action = SetupAction::ReadDir(root.join_all(&dir));
                (SelectiveWatches { root, phase: Phase::Opening(dir), pending, watched_count }, action)
            },
            None => (
                SelectiveWatches { root, phase: Phase::Finished, pending, watched_count },
                SetupAction::Done,
            ),
        }
    }

    /// Tells the traversal what happened.
    pub fn step(self, event: SetupEvent) -> (next: (SelectiveWatches, SetupAction))
        requires
            setup_expects(self@.phase, event@),
        ensures
            (next.0@, next.1@) == setup_step(self@, event@),
            next.1 is Done ==> next.0@.phase is Finished && next.0@.pending.len() == 0,
            next.0@.phase matches SetupPhase::Opening(dir) ==> next.1 matches SetupAction::ReadDir(
                path,
            ) && path@ == join_all(self@.root, dir),
            next.0@.phase is Listing ==> next.1 is NextEntry,
            next.0@.phase matches SetupPhase::Watching { dir, name } ==> next.1
                matches SetupAction::Watch { path, mode } && path@ == join_all(
                self@.root,
                dir.push(name),
            ) && mode == WatchMode::NonRecursive,
    {
        let SelectiveWatches { root, phase, mut pending, watched_count } = self;
        match (phase, event) {
            (Phase::WatchingRoot, SetupEvent::Watched(outcome)) => match outcome {
                Ok(_) => {
                    let mut pending: VecDeque<Vec<Vec<u8>>> = VecDeque::new();
                    pending.push_back(Vec::new());
                    assert(name_views(pending@[0]@) == Seq::<Seq<u8>>::empty());
                    assert(dir_views(pending@) == seq![Seq::<Seq<u8>>::empty()]);
                    let watches = SelectiveWatches {
                        root,
                        phase: Phase::WatchingRoot,
                        pending,
                        watched_count: watched_count.saturating_add(1),
                    };
                    watches.turn_to_next_dir()
                },
                Err(error) => (
                    SelectiveWatches { root, phase: Phase::Finished, pending, watched_count },
                    SetupAction::Fail(FilesystemWatcherError::Notify(error)),
                ),
            },
            (Phase::Opening(dir), SetupEvent::Opened { readable }) => if readable {
                (
                    SelectiveWatches { root, phase: Phase::Listing(dir), pending, watched_count },
                    SetupAction::NextEntry,
                )
            } else {
                let watches = SelectiveWatches {
                    root,
                    phase: Phase::Opening(dir),
                    pending,
                    watched_count,
                };
                watches.turn_to_next_dir()
            },
            (Phase::Listing(dir), SetupEvent::Entry { name, is_dir }) => {
                // Only process directories, and skip the whole subtree of an excluded one
                if is_dir && !is_excluded_name(name.as_slice()) {
                    proof {
                        let names = name_views(dir@).push(name@);
                        assert(names.drop_last() == name_views(dir@));
                        assert(names.last() == name@);
                    }
                    let action = SetupAction::Watch {
                        path: root.join_all(&dir).join(name.as_slice()),
                        mode: WatchMode::NonRecursive,
                    };
                    (
                        SelectiveWatches {
                            root,
                            phase: Phase::Watching { dir, name },
                            pending,
                            watched_count,
                        },
                        action,
                    )
                } else {
                    (
                        SelectiveWatches { root, phase: Phase::Listing(dir), pending, watched_count },
                        SetupAction::NextEntry,
                    )
                }
            },
            (Phase::Listing(dir), SetupEvent::EndOfDir) => {
                let watches = SelectiveWatches {
                    root,
                    phase: Phase::Listing(dir),
                    pending,
                    watched_count,
                };
                watches.turn_to_next_dir()
            },
            (Phase::Watching { dir, name }, SetupEvent::Watched(outcome)) => match outcome {
                Ok(_) => {
                    // Add to queue for further processing
                    pending.push_back(with_name(&dir, name));
                    assert(dir_views(pending@) == self@.pending.push(
                        name_views(dir@).push(name@),
                    ));
                    (
                        SelectiveWatches {
                            root,
                            phase: Phase::Listing(dir),
                            pending,
                            watched_count: watched_count.saturating_add(1),
                        },
                        SetupAction::NextEntry,
                    )
                },
                Err(_) => (
                    SelectiveWatches { root, phase: Phase::Listing(dir), pending, watched_count },
                    SetupAction::NextEntry,
                ),
            },
            _ => vstd::pervasive::unreached(),
        }
    }
}

/// What a traversal is told and what it answers is seen as it is.
pub proof fn traversals_are_seen_as_they_are(event: SetupEvent, action: SetupAction)
    ensures
        event matches SetupEvent::Watched(outcome) ==> event@ == SetupInput::Watched(outcome),
        event matches SetupEvent::Opened { readable } ==> event@ == (SetupInput::Opened {
            readable,
        }),
        event matches SetupEvent::Entry { name, is_dir } ==> event@ == (SetupInput::Entry {
            name: name@,
            is_dir,
        }),
        event is EndOfDir ==> event@ is EndOfDir,
        action matches SetupAction::Watch { path, mode } ==> action@ == (SetupOutput::Watch {
            path: path@,
            mode,
        }),
        action matches SetupAction::ReadDir(path) ==> action@ == SetupOutput::ReadDir(path@),
        action is NextEntry <==> action@ is NextEntry,
        action is Done <==> action@ is Done,
        action matches SetupAction::Fail(error) ==> action@ == SetupOutput::Fail(error),
{
}

} // verus!
