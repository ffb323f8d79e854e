//! The order in which a watcher is brought up.
//!
//! The root is resolved, its ignore rules are collected, the debouncer is opened with the filter
//! that these make up, and the watches are placed. The first thing that fails ends it all. The
//! startup itself touches nothing: it is told how each step came out, and answers with the next.

use ignore::gitignore::Gitignore;
use vstd::prelude::*;

use crate::error::FilesystemWatcherError;
use crate::path::{canonicalize_lossy, lossy, ResolvedPath, WatchPath};

verus! {

/// How long changes are gathered before they are reported, in milliseconds.
pub const DEBOUNCE_MILLIS: u64 = 200;

/// How many batches the channel to the receiver holds, with room for bursts of errors.
pub const CHANNEL_CAPACITY: usize = 64;

/// How a step of the startup came out.
pub enum StartupEvent {
    /// The canonical form of the root, if it could be resolved.
    Resolved(Option<WatchPath>),
    /// The rules of the root.
    RulesBuilt(Result<Gitignore, FilesystemWatcherError>),
    /// The debouncer is open.
    DebouncerOpened(Result<(), notify::Error>),
    /// The watches are in place.
    WatchesPlaced(Result<(), FilesystemWatcherError>),
}

/// How a step of the startup came out, over spellings.
pub enum StartupInput {
    Resolved(Option<Seq<u8>>),
    RulesBuilt(Result<Gitignore, FilesystemWatcherError>),
    DebouncerOpened(Result<(), notify::Error>),
    WatchesPlaced(Result<(), FilesystemWatcherError>),
}

impl View for StartupEvent {
    type V = StartupInput;

    open spec fn view(&self) -> StartupInput {
        match *self {
            StartupEvent::Resolved(Some(canonical)) => StartupInput::Resolved(Some(canonical@)),
            StartupEvent::Resolved(None) => StartupInput::Resolved(None),
            StartupEvent::RulesBuilt(outcome) => StartupInput::RulesBuilt(outcome),
            StartupEvent::DebouncerOpened(outcome) => StartupInput::DebouncerOpened(outcome),
            StartupEvent::WatchesPlaced(outcome) => StartupInput::WatchesPlaced(outcome),
        }
    }
}

/// The next step of the startup.
pub enum StartupAction {
    /// Resolve this path on disk.
    Resolve(WatchPath),
    /// Collect and compile the rules of this directory.
    BuildRules(WatchPath),
    /// Open the debouncer; what it reports is filtered by these rules and this root.
    OpenDebouncer { rules: Gitignore, root: WatchPath, debounce_millis: u64, capacity: usize },
    /// Watch this directory and those below it.
    PlaceWatches(WatchPath),
    /// The watcher is up, for this root.
    Ready(WatchPath),
    /// Give up.
    Fail(FilesystemWatcherError),
}

/// The next step of the startup, over spellings.
pub enum StartupOutput {
    Resolve(Seq<u8>),
    BuildRules(Seq<u8>),
    OpenDebouncer { rules: Gitignore, root: Seq<u8>, debounce_millis: u64, capacity: usize },
    PlaceWatches(Seq<u8>),
    Ready(Seq<u8>),
    Fail(FilesystemWatcherError),
}

impl View for StartupAction {
    type V = StartupOutput;

    open spec fn view(&self) -> StartupOutput {
        match *self {
            StartupAction::Resolve(path) => StartupOutput::Resolve(path@),
            StartupAction::BuildRules(root) => StartupOutput::BuildRules(root@),
            StartupAction::OpenDebouncer {
                rules,
                root,
                debounce_millis,
                capacity,
            } => StartupOutput::OpenDebouncer { rules, root: root@, debounce_millis, capacity },
            StartupAction::PlaceWatches(root) => StartupOutput::PlaceWatches(root@),
            StartupAction::Ready(root) => StartupOutput::Ready(root@),
            StartupAction::Fail(error) => StartupOutput::Fail(error),
        }
    }
}

/// Which step a startup waits for; `path` is the root as given, `root` its canonical form.
enum Stage {
    Resolving { path: WatchPath },
    BuildingRules { root: WatchPath },
    OpeningDebouncer { root: WatchPath },
    PlacingWatches { root: WatchPath },
    Finished,
}

/// Which step a startup waits for, over spellings.
pub enum StartupStage {
    Resolving { path: Seq<u8> },
    BuildingRules { root: Seq<u8> },
    OpeningDebouncer { root: Seq<u8> },
    PlacingWatches { root: Seq<u8> },
    Finished,
}

/// The startup of a watcher.
pub struct Startup {
    stage: Stage,
}

impl View for Startup {
    type V = StartupStage;

    closed spec fn view(&self) -> StartupStage {
        match self.stage {
            Stage::Resolving { path } => StartupStage::Resolving { path: path@ },
            Stage::BuildingRules { root } => StartupStage::BuildingRules { root: root@ },
            Stage::OpeningDebouncer { root } => StartupStage::OpeningDebouncer { root: root@ },
            Stage::PlacingWatches { root } => StartupStage::PlacingWatches { root: root@ },
            Stage::Finished => StartupStage::Finished,
        }
    }
}

/// Whether a startup can be told this now.
pub open spec fn startup_expects(stage: StartupStage, input: StartupInput) -> bool {
    match stage {
        StartupStage::Resolving { .. } => input is Resolved,
        StartupStage::BuildingRules { .. } => input is RulesBuilt,
        StartupStage::OpeningDebouncer { .. } => input is DebouncerOpened,
        StartupStage::PlacingWatches { .. } => input is WatchesPlaced,
        StartupStage::Finished => false,
    }
}

/// What a startup makes of how a step came out.
pub open spec fn startup_step(stage: StartupStage, input: StartupInput) -> (
    StartupStage,
    StartupOutput,
) {
    match (stage, input) {
        (StartupStage::Resolving { path }, StartupInput::Resolved(canonical)) => (
            StartupStage::BuildingRules { root: lossy(path, canonical) },
            StartupOutput::BuildRules(lossy(path, canonical)),
        ),
        (StartupStage::BuildingRules { root }, StartupInput::RulesBuilt(Ok(rules))) => (
            StartupStage::OpeningDebouncer { root },
            StartupOutput::OpenDebouncer {
                rules,
                root,
                debounce_millis: DEBOUNCE_MILLIS,
                capacity: CHANNEL_CAPACITY,
            },
        ),
        (StartupStage::OpeningDebouncer { root }, StartupInput::DebouncerOpened(Ok(_))) => (
            StartupStage::PlacingWatches { root },
            StartupOutput::PlaceWatches(root),
        ),
        (StartupStage::PlacingWatches { root }, StartupInput::WatchesPlaced(Ok(_))) => (
            StartupStage::Finished,
            StartupOutput::Ready(root),
        ),
        (_, StartupInput::RulesBuilt(Err(error))) => (
            StartupStage::Finished,
            StartupOutput::Fail(error),
        ),
        (_, StartupInput::DebouncerOpened(Err(error))) => (
            StartupStage::Finished,
            StartupOutput::Fail(FilesystemWatcherError::Notify(error)),
        ),
        (_, StartupInput::WatchesPlaced(Err(error))) => (
            StartupStage::Finished,
            StartupOutput::Fail(error),
        ),
        _ => arbitrary(),
    }
}

impl Startup {
    /// Starts to bring up a watcher for a path: the path is to be resolved first.
    pub fn new(path: &WatchPath) -> (start: (Startup, StartupAction))
        ensures
            start.0@ == (StartupStage::Resolving { path: path@ }),
            start.1@ == StartupOutput::Resolve(path@),
    {
        (Startup { stage: Stage::Resolving { path: path.clone() } }, StartupAction::Resolve(path.clone()))
    }

    /// Whether the startup can be told this now.
    pub fn expects(&self, event: &StartupEvent) -> (expected: bool)
        ensures
            expected == startup_expects(self@, event@),
    {
        match &self.stage {
            Stage::Resolving { .. } => matches!(event, StartupEvent::Resolved(_)),
            Stage::BuildingRules { .. } => matches!(event, StartupEvent::RulesBuilt(_)),
            Stage::OpeningDebouncer { .. } => matches!(event, StartupEvent::DebouncerOpened(_)),
            Stage::PlacingWatches { .. } => matches!(event, StartupEvent::WatchesPlaced(_)),
            Stage::Finished => false,
        }
    }

    /// Tells the startup how the step came out.
    pub fn step(self, event: StartupEvent) -> (next: (Startup, StartupAction))
        requires
            startup_expects(self@, event@),
        ensures
            (next.0@, next.1@) == startup_step(self@, event@),
    {
        match (self.stage, event) {
            (Stage::Resolving { path }, StartupEvent::Resolved(canonical)) => {
                let resolved = ResolvedPath { path, canonical };
                let root = canonicalize_lossy(&resolved).clone();
                let action = StartupAction::BuildRules(root.clone());
                (Startup { stage: Stage::BuildingRules { root } }, action)
            },
            (Stage::BuildingRules { root }, StartupEvent::RulesBuilt(outcome)) => match outcome {
                Ok(rules) => {
                    let action = StartupAction::OpenDebouncer {
                        rules,
                        root: root.clone(),
                        debounce_millis: DEBOUNCE_MILLIS,
                        capacity: CHANNEL_CAPACITY,
                    };
                    (Startup { stage: Stage::OpeningDebouncer { root } }, action)
                },
                Err(error) => (Startup { stage: Stage::Finished }, StartupAction::Fail(error)),
            },
            (Stage::OpeningDebouncer { root }, StartupEvent::DebouncerOpened(outcome)) => match outcome {
                Ok(_) => {
                    let action = StartupAction::PlaceWatches(root.clone());
                    (Startup { stage: Stage::PlacingWatches { root } }, action)
                },
                Err(error) => (
                    Startup { stage: Stage::Finished },
                    StartupAction::Fail(FilesystemWatcherError::from(error)),
                ),
            },
            (Stage::PlacingWatches { root }, StartupEvent::WatchesPlaced(outcome)) => match outcome {
                Ok(_) => (Startup { stage: Stage::Finished }, StartupAction::Ready(root)),
                Err(error) => (Startup { stage: Stage::Finished }, StartupAction::Fail(error)),
            },
            _ => vstd::pervasive::unreached(),
        }
    }
}

/// A startup told all this, one after the other: where it stands, and what it last answered.
pub open spec fn startup_run(path: Seq<u8>, inputs: Seq<StartupInput>) -> (
    StartupStage,
    StartupOutput,
)
    decreases inputs.len(),
{
    if inputs.len() == 0 {
        (StartupStage::Resolving { path }, StartupOutput::Resolve(path))
    } else {
        startup_step(startup_run(path, inputs.drop_last()).0, inputs.last())
    }
}

/// Each thing is told when the startup expects it.
pub open spec fn startup_in_turn(path: Seq<u8>, inputs: Seq<StartupInput>) -> bool
    decreases inputs.len(),
{
    inputs.len() == 0 || {
        &&& startup_in_turn(path, inputs.drop_last())
        &&& startup_expects(startup_run(path, inputs.drop_last()).0, inputs.last())
    }
}

/// The error that a step came out with, as the caller gets it.
pub open spec fn startup_error(input: StartupInput) -> Option<FilesystemWatcherError> {
    match input {
        StartupInput::RulesBuilt(Err(error)) => Some(error),
        StartupInput::DebouncerOpened(Err(error)) => Some(FilesystemWatcherError::Notify(error)),
        StartupInput::WatchesPlaced(Err(error)) => Some(error),
        _ => None,
    }
}

/// A startup goes through its four steps in order, and every step works on the canonical root,
/// or on the path as given where it could not be resolved. It is up if and only if all four steps
/// came out well; it fails if and only if one did not, with the error of that one, and no step
/// follows.
pub proof fn startup_runs_in_order(path: Seq<u8>, inputs: Seq<StartupInput>)
    requires
        startup_in_turn(path, inputs),
    ensures
        inputs.len() <= 4,
        inputs.len() > 0 ==> inputs[0] is Resolved,
        inputs.len() > 1 ==> inputs[1] is RulesBuilt,
        inputs.len() > 2 ==> inputs[2] is DebouncerOpened,
        inputs.len() > 3 ==> inputs[3] is WatchesPlaced,
        forall|i: int| 0 <= i < inputs.len() - 1 ==> startup_error(#[trigger] inputs[i]) is None,
        ({
            let (stage, output) = startup_run(path, inputs);
            let root = lossy(path, inputs[0]->Resolved_0);
            let failed = inputs.len() > 0 && startup_error(inputs.last()) is Some;
            &&& stage is Finished <==> failed || inputs.len() == 4
            &&& failed ==> output == StartupOutput::Fail(startup_error(inputs.last())->0)
            &&& !failed && inputs.len() == 0 ==> {
                &&& stage == StartupStage::Resolving { path }
                &&& output == StartupOutput::Resolve(path)
            }
            &&& !failed && inputs.len() == 1 ==> {
                &&& stage == StartupStage::BuildingRules { root }
                &&& output == StartupOutput::BuildRules(root)
            }
            &&& !failed && inputs.len() == 2 ==> {
                &&& stage == StartupStage::OpeningDebouncer { root }
                &&& output == StartupOutput::OpenDebouncer {
                    rules: inputs[1]->RulesBuilt_0->Ok_0,
                    root,
                    debounce_millis: DEBOUNCE_MILLIS,
                    capacity: CHANNEL_CAPACITY,
                }
            }
            &&& !failed && inputs.len() == 3 ==> {
                &&& stage == StartupStage::PlacingWatches { root }
                &&& output == StartupOutput::PlaceWatches(root)
            }
            &&& !failed && inputs.len() == 4 ==> output == StartupOutput::Ready(root)
        }),
    decreases inputs.len(),
{
    if inputs.len() > 0 {
        let front = inputs.drop_last();
        startup_runs_in_order(path, front);
        assert forall|i: int| 0 <= i < inputs.len() - 1 implies startup_error(
            #[trigger] inputs[i],
        ) is None by {
            assert(front[i] == inputs[i]);
            if i == front.len() - 1 {
                assert(front.last() == inputs[i]);
            }
        }
        if front.len() > 0 {
            assert(front[0] == inputs[0]);
        }
        if front.len() > 1 {
            assert(front[1] == inputs[1]);
        }
    }
}

/// A startup can be told next how the step that it asked for last came out, whichever way that
/// was, and nothing else; once it is up or has failed, it can be told nothing.
pub proof fn startups_expect_what_they_ask_for(
    path: Seq<u8>,
    inputs: Seq<StartupInput>,
    input: StartupInput,
)
    requires
        startup_in_turn(path, inputs),
    ensures
        startup_in_turn(path, inputs.push(input)) <==> match startup_run(path, inputs).1 {
            StartupOutput::Resolve(_) => input is Resolved,
            StartupOutput::BuildRules(_) => input is RulesBuilt,
            StartupOutput::OpenDebouncer { .. } => input is DebouncerOpened,
            StartupOutput::PlaceWatches(_) => input is WatchesPlaced,
            StartupOutput::Ready(_) => false,
            StartupOutput::Fail(_) => false,
        },
{
    assert(inputs.push(input).drop_last() == inputs);
    startup_runs_in_order(path, inputs);
}

/// The steps of a startup work on what came of the steps before: the rules, the watches and the
/// answer at the end are for the canonical form of the path where there is one, and else for the
/// path as given, and the filter has the rules that were built.
pub proof fn startups_work_on_one_root(
    path: Seq<u8>,
    canonical: Option<Seq<u8>>,
    rules: Gitignore,
)
    ensures
        ({
            let root = match canonical {
                Some(canonical) => canonical,
                None => path,
            };
            let resolved = seq![StartupInput::Resolved(canonical)];
            let built = resolved.push(StartupInput::RulesBuilt(Ok(rules)));
            let opened = built.push(StartupInput::DebouncerOpened(Ok(())));
            let placed = opened.push(StartupInput::WatchesPlaced(Ok(())));
            &&& startup_in_turn(path, placed)
            &&& startup_run(path, Seq::empty()).1 == StartupOutput::Resolve(path)
            &&& startup_run(path, resolved).1 == StartupOutput::BuildRules(root)
            &&& startup_run(path, built).1 == (StartupOutput::OpenDebouncer {
                rules,
                root,
                debounce_millis: 200,
                capacity: 64,
            })
            &&& startup_run(path, opened).1 == StartupOutput::PlaceWatches(root)
            &&& startup_run(path, placed).1 == StartupOutput::Ready(root)
        }),
{
    let resolved = seq![StartupInput::Resolved(canonical)];
    let built = resolved.push(StartupInput::RulesBuilt(Ok(rules)));
    let opened = built.push(StartupInput::DebouncerOpened(Ok(())));
    let placed = opened.push(StartupInput::WatchesPlaced(Ok(())));
    assert(resolved.drop_last() == Seq::<StartupInput>::empty());
    assert(built.drop_last() == resolved);
    assert(opened.drop_last() == built);
    assert(placed.drop_last() == opened);
    reveal_with_fuel(startup_run, 5);
    reveal_with_fuel(startup_in_turn, 5);
}

/// Whatever a startup was told, an error that a step comes out with is what it fails with.
pub proof fn startups_fail_with_the_error_of_the_step(path: Seq<u8>, inputs: Seq<StartupInput>)
    requires
        startup_in_turn(path, inputs),
        inputs.len() > 0,
    ensures
        startup_run(path, inputs).1 is Fail <==> {
            ||| inputs.last() matches StartupInput::RulesBuilt(Err(_))
            ||| inputs.last() matches StartupInput::DebouncerOpened(Err(_))
            ||| inputs.last() matches StartupInput::WatchesPlaced(Err(_))
        },
        inputs.last() matches StartupInput::RulesBuilt(Err(error)) ==> startup_run(path, inputs).1
            == StartupOutput::Fail(error),
        inputs.last() matches StartupInput::DebouncerOpened(Err(error)) ==> startup_run(
            path,
            inputs,
        ).1 == StartupOutput::Fail(FilesystemWatcherError::Notify(error)),
        inputs.last() matches StartupInput::WatchesPlaced(Err(error)) ==> startup_run(
            path,
            inputs,
        ).1 == StartupOutput::Fail(error),
{
    startup_runs_in_order(path, inputs);
}

/// What a startup is told and what it answers is seen as it is.
pub proof fn startups_are_seen_as_they_are(event: StartupEvent, action: StartupAction)
    ensures
        event matches StartupEvent::Resolved(Some(path)) ==> event@ == StartupInput::Resolved(
            Some(path@),
        ),
        event matches StartupEvent::Resolved(None) ==> event@ == StartupInput::Resolved(None),
        event matches StartupEvent::RulesBuilt(outcome) ==> event@ == StartupInput::RulesBuilt(
            outcome,
        ),
        event matches StartupEvent::DebouncerOpened(outcome) ==> event@
            == StartupInput::DebouncerOpened(outcome),
        event matches StartupEvent::WatchesPlaced(outcome) ==> event@
            == StartupInput::WatchesPlaced(outcome),
        action matches StartupAction::Resolve(path) ==> action@ == StartupOutput::Resolve(path@),
        action matches StartupAction::BuildRules(root) ==> action@ == StartupOutput::BuildRules(
            root@,
        ),
        action matches StartupAction::OpenDebouncer { rules, root, debounce_millis, capacity }
            ==> action@ == (StartupOutput::OpenDebouncer {
            rules,
            root: root@,
            debounce_millis,
            capacity,
        }),
        action matches StartupAction::PlaceWatches(root) ==> action@
            == StartupOutput::PlaceWatches(root@),
        action matches StartupAction::Ready(root) ==> action@ == StartupOutput::Ready(root@),
        action matches StartupAction::Fail(error) ==> action@ == StartupOutput::Fail(error),
{
}

} // verus!
