//! What a driver comes to that does as it is told: one that carries out what a scan or a
//! traversal answers, and tells it how that came out.

use vstd::prelude::*;

use crate::coverage::{
    current_dir, dirs_asked_for, finished_traversal_watches_what_is_reachable, reachable,
    setup_in_turn, setup_run, tree_told, watch_target, Tree,
};
use crate::error::FilesystemWatcherError;
use crate::exclude::excluded_name;
use crate::path::{join_all, plain_name};
use crate::scan::{
    exclude_file, scan_adds_the_walked_files, scan_in_turn, scan_run, scan_step, walked_files,
    walked_files_come_one_by_one, IoErrorKind, ScanInput, ScanNext, ScanPhase,
};
use crate::watches::{setup_step, SetupInput, SetupOutput, SetupPhase, WatchMode};

verus! {

/// What the scan of a directory answers last when it is told all this. At first it is to walk.
pub open spec fn scan_answer(root: Seq<u8>, inputs: Seq<ScanInput>) -> ScanNext {
    if inputs.len() == 0 {
        ScanNext::Walk
    } else {
        scan_step(root, scan_run(root, inputs.drop_last()).phase, inputs.last()).1.next
    }
}

/// What a scan answers is settled by what it was told last: it goes on with the walk after every
/// entry, and after a failure for want of permission; it looks for the exclude file at the end of
/// the walk and only there; it compiles the rules once it knows of that file; and any other
/// failure ends it.
pub proof fn scans_go_on_until_the_walk_ends(
    root: Seq<u8>,
    inputs: Seq<ScanInput>,
    input: ScanInput,
)
    requires
        scan_in_turn(root, inputs.push(input)),
    ensures
        scan_answer(root, inputs.push(input)) == match input {
            ScanInput::Entry { .. } => ScanNext::Walk,
            ScanInput::Failure { kind, error } => if kind == Some(IoErrorKind::PermissionDenied) {
                ScanNext::Walk
            } else {
                ScanNext::Fail(FilesystemWatcherError::Ignore(error))
            },
            ScanInput::WalkEnd => ScanNext::CheckExclude(exclude_file(root)),
            ScanInput::ExcludeChecked { .. } => ScanNext::Build,
        },
{
    assert(inputs.push(input).drop_last() == inputs);
}

/// What a scan is told last settles what it adds: an entry that is not known to be a directory,
/// whatever its path, and the exclude file where it exists.
pub proof fn scans_add_each_file_they_are_told_of(
    root: Seq<u8>,
    inputs: Seq<ScanInput>,
    input: ScanInput,
)
    requires
        scan_in_turn(root, inputs.push(input)),
    ensures
        scan_run(root, Seq::empty()).added == Seq::<Seq<u8>>::empty(),
        scan_run(root, inputs.push(input)).added == match input {
            ScanInput::Entry { path, is_dir } if is_dir != Some(true) => scan_run(
                root,
                inputs,
            ).added.push(path),
            ScanInput::ExcludeChecked { exists: true } => scan_run(root, inputs).added.push(
                exclude_file(root),
            ),
            _ => scan_run(root, inputs).added,
        },
{
    assert(inputs.push(input).drop_last() == inputs);
}

/// Where a scan stands goes with what it answered last.
proof fn scans_stand_where_they_ask(root: Seq<u8>, inputs: Seq<ScanInput>)
    requires
        scan_in_turn(root, inputs),
    ensures
        match scan_answer(root, inputs) {
            ScanNext::Walk => scan_run(root, inputs).phase == ScanPhase::Walking,
            ScanNext::CheckExclude(_) => scan_run(root, inputs).phase
                == ScanPhase::CheckingExclude,
            _ => scan_run(root, inputs).phase == ScanPhase::Finished,
        },
    decreases inputs.len(),
{
    if inputs.len() > 0 {
        scans_stand_where_they_ask(root, inputs.drop_last());
    }
}

/// A scan can be told next whatever can come of what it asked for last, and nothing else: of a
/// walk any entry, any failure or the end, of the exclude file whether it exists. Once it is to
/// compile or has failed, it can be told nothing.
pub proof fn scans_expect_what_they_ask_for(
    root: Seq<u8>,
    inputs: Seq<ScanInput>,
    input: ScanInput,
)
    requires
        scan_in_turn(root, inputs),
    ensures
        scan_in_turn(root, inputs.push(input)) <==> match scan_answer(root, inputs) {
            ScanNext::Walk => !(input is ExcludeChecked),
            ScanNext::CheckExclude(_) => input is ExcludeChecked,
            ScanNext::Build => false,
            ScanNext::Fail(_) => false,
        },
{
    assert(inputs.push(input).drop_last() == inputs);
    scans_stand_where_they_ask(root, inputs);
}

/// What a driver tells a scan next, that has told it `told` things of this walk: the next thing of
/// the walk, or its end, when the scan asks for the walk; whether the exclude file exists when it
/// asks for that; and nothing more otherwise.
pub open spec fn scan_driver_tells(
    walk: Seq<ScanInput>,
    exists: bool,
    told: int,
    answer: ScanNext,
) -> Option<ScanInput> {
    match answer {
        ScanNext::Walk => if told < walk.len() {
            Some(walk[told])
        } else {
            Some(ScanInput::WalkEnd)
        },
        ScanNext::CheckExclude(_) => Some(ScanInput::ExcludeChecked { exists }),
        _ => None,
    }
}

/// All that a driver tells a scan of this walk within so many rounds.
pub open spec fn scan_driven(
    root: Seq<u8>,
    walk: Seq<ScanInput>,
    exists: bool,
    rounds: nat,
) -> Seq<ScanInput>
    decreases rounds,
{
    if rounds == 0 {
        Seq::empty()
    } else {
        let before = scan_driven(root, walk, exists, (rounds - 1) as nat);
        match scan_driver_tells(walk, exists, before.len() as int, scan_answer(root, before)) {
            Some(input) => before.push(input),
            None => before,
        }
    }
}

/// Whether this is an entry, or a failure for want of permission.
pub open spec fn lets_the_walk_go_on(input: ScanInput) -> bool {
    match input {
        ScanInput::Entry { .. } => true,
        ScanInput::Failure { kind, error: _ } => kind == Some(IoErrorKind::PermissionDenied),
        _ => false,
    }
}

/// A driver that does as it is told hands the scan everything that the walk comes upon, as long
/// as nothing but missing permissions goes wrong; then its end, and whether the exclude file
/// exists. Only then is the scan to compile the rules, and by then it has added every file of the
/// walk in order, and the exclude file behind them if it exists.
pub proof fn a_driven_scan_hears_of_the_whole_walk(
    root: Seq<u8>,
    walk: Seq<ScanInput>,
    exists: bool,
    rounds: nat,
)
    requires
        forall|i: int| 0 <= i < walk.len() ==> lets_the_walk_go_on(#[trigger] walk[i]),
    ensures
        ({
            let told = scan_driven(root, walk, exists, rounds);
            let ended = walk.push(ScanInput::WalkEnd);
            let all = ended.push(ScanInput::ExcludeChecked { exists });
            &&& scan_in_turn(root, told)
            &&& rounds <= walk.len() ==> {
                &&& told == walk.take(rounds as int)
                &&& scan_answer(root, told) == ScanNext::Walk
                &&& scan_run(root, told).added == walked_files(told)
            }
            &&& rounds == walk.len() + 1 ==> {
                &&& told == ended
                &&& scan_answer(root, told) == ScanNext::CheckExclude(exclude_file(root))
                &&& scan_run(root, told).added == walked_files(walk)
            }
            &&& rounds >= walk.len() + 2 ==> {
                &&& told == all
                &&& scan_answer(root, told) == ScanNext::Build
                &&& scan_run(root, told).added == if exists {
                    walked_files(walk).push(exclude_file(root))
                } else {
                    walked_files(walk)
                }
            }
        }),
    decreases rounds,
{
    let len = walk.len() as int;
    if rounds == 0 {
        assert(walk.take(0) == Seq::<ScanInput>::empty());
        scan_adds_the_walked_files(root, Seq::empty());
    } else {
        let before = scan_driven(root, walk, exists, (rounds - 1) as nat);
        let told = scan_driven(root, walk, exists, rounds);
        a_driven_scan_hears_of_the_whole_walk(root, walk, exists, (rounds - 1) as nat);
        if rounds <= len + 2 {
            let input = scan_driver_tells(
                walk,
                exists,
                before.len() as int,
                scan_answer(root, before),
            )->0;
            if rounds <= len {
                assert(lets_the_walk_go_on(walk[rounds - 1]));
                assert(walk.take(rounds as int) == before.push(walk[rounds - 1]));
            } else {
                assert(walk.take(len) == walk);
            }
            assert(told == before.push(input));
            scans_expect_what_they_ask_for(root, before, input);
            scans_go_on_until_the_walk_ends(root, before, input);
            scans_add_each_file_they_are_told_of(root, before, input);
            walked_files_come_one_by_one(before, input);
        }
    }
}

/// A failure of the walk for any other reason ends the scan then and there, with that error, and
/// a driver that does as it is told goes no further.
pub proof fn a_driven_scan_stops_at_a_failure(
    root: Seq<u8>,
    walk: Seq<ScanInput>,
    at: int,
    exists: bool,
    rounds: nat,
)
    requires
        0 <= at < walk.len(),
        forall|i: int| 0 <= i < at ==> lets_the_walk_go_on(#[trigger] walk[i]),
        walk[at] is Failure,
        !lets_the_walk_go_on(walk[at]),
    ensures
        ({
            let told = scan_driven(root, walk, exists, rounds);
            &&& scan_in_turn(root, told)
            &&& rounds <= at ==> {
                &&& told == walk.take(rounds as int)
                &&& scan_answer(root, told) == ScanNext::Walk
            }
            &&& rounds > at ==> {
                &&& told == walk.take(at + 1)
                &&& scan_answer(root, told) == ScanNext::Fail(
                    FilesystemWatcherError::Ignore(walk[at]->error),
                )
            }
        }),
    decreases rounds,
{
    if rounds == 0 {
        assert(walk.take(0) == Seq::<ScanInput>::empty());
    } else {
        let before = scan_driven(root, walk, exists, (rounds - 1) as nat);
        a_driven_scan_stops_at_a_failure(root, walk, at, exists, (rounds - 1) as nat);
        if rounds <= at + 1 {
            let input = walk[rounds - 1];
            assert(walk.take(rounds as int) == before.push(input));
            scans_expect_what_they_ask_for(root, before, input);
            scans_go_on_until_the_walk_ends(root, before, input);
        }
    }
}

/// What a traversal answers last when it is told all this. At first it is to watch the root.
pub open spec fn setup_answer(root: Seq<u8>, inputs: Seq<SetupInput>) -> SetupOutput {
    if inputs.len() == 0 {
        SetupOutput::Watch { path: root, mode: WatchMode::NonRecursive }
    } else {
        setup_step(setup_run(root, inputs.drop_last()).state, inputs.last()).1
    }
}

/// The directories that a traversal asks to list, in order, when it is told all this.
pub open spec fn listings_asked_for(root: Seq<u8>, inputs: Seq<SetupInput>) -> Seq<Seq<u8>>
    decreases inputs.len(),
{
    if inputs.len() == 0 {
        Seq::empty()
    } else {
        let before = listings_asked_for(root, inputs.drop_last());
        match setup_answer(root, inputs) {
            SetupOutput::ReadDir(path) => before.push(path),
            _ => before,
        }
    }
}

/// What holds of a traversal at every point: where it stands goes with its answers, and the queue
/// is what is watched and not listed yet.
spec fn keeps_its_word(root: Seq<u8>, inputs: Seq<SetupInput>) -> bool {
    let run = setup_run(root, inputs);
    let answer = setup_answer(root, inputs);
    let listed = listings_asked_for(root, inputs).len();
    &&& run.state.root == root
    &&& listed <= run.watched.len()
    &&& run.state.pending == run.watched.skip(listed as int)
    &&& forall|i: int|
        0 <= i < listed ==> #[trigger] listings_asked_for(root, inputs)[i] == join_all(
            root,
            run.watched[i],
        )
    &&& current_dir(run.state) matches Some(dir) ==> listed > 0 && dir == run.watched[listed - 1]
    &&& run.state.phase is WatchingRoot <==> inputs.len() == 0
    &&& match run.state.phase {
        SetupPhase::WatchingRoot => run.watched.len() == 0,
        SetupPhase::Opening(dir) => answer == SetupOutput::ReadDir(join_all(root, dir)),
        SetupPhase::Listing(_) => answer is NextEntry,
        SetupPhase::Watching { dir, name } => answer == (SetupOutput::Watch {
            path: join_all(root, dir.push(name)),
            mode: WatchMode::NonRecursive,
        }),
        SetupPhase::Finished => if inputs[0] is Watched && inputs[0]->Watched_0 is Err {
            inputs.len() == 1 && run.watched.len() == 0 && answer == SetupOutput::Fail(
                FilesystemWatcherError::Notify(inputs[0]->Watched_0->Err_0),
            )
        } else {
            answer is Done && listed == run.watched.len()
        },
    }
    &&& run.state.phase is WatchingRoot || run.state.phase is Watching ==> dirs_asked_for(
        root,
        inputs,
    ).last() == watch_target(run.state)
    &&& inputs.len() > 0 && !(run.state.phase is Finished && inputs.len() == 1) ==> inputs[0]
        matches SetupInput::Watched(Ok(_))
}

proof fn traversals_keep_their_word(root: Seq<u8>, inputs: Seq<SetupInput>)
    requires
        setup_in_turn(root, inputs),
    ensures
        keeps_its_word(root, inputs),
    decreases inputs.len(),
{
    if inputs.len() == 0 {
        assert(setup_run(root, inputs).watched.skip(0) == Seq::<Seq<Seq<u8>>>::empty());
        assert(join_all(root, Seq::empty()) == root);
    } else {
        let front = inputs.drop_last();
        let before = setup_run(root, front);
        let after = setup_run(root, inputs);
        let listed = listings_asked_for(root, front).len() as int;
        traversals_keep_their_word(root, front);
        if front.len() > 0 {
            assert(front[0] == inputs[0]);
        }
        if before.state.pending.len() > 0 {
            assert(before.state.pending[0] == before.watched[listed]);
            assert(before.state.pending.drop_first() == before.watched.skip(listed + 1));
        }
        match (before.state.phase, inputs.last()) {
            (SetupPhase::WatchingRoot, SetupInput::Watched(Ok(_))) => {
                let start = Seq::<Seq<u8>>::empty();
                assert(after.watched == seq![start]);
                assert(seq![start].drop_first() == after.watched.skip(1));
            },
            (SetupPhase::Watching { dir, name }, SetupInput::Watched(Ok(_))) => {
                assert(after.watched.skip(listed) == before.watched.skip(listed).push(
                    dir.push(name),
                ));
            },
            _ => {},
        }
    }
}

/// A traversal answers at each point what it waits for: the watch on the root first, then to list
/// a directory, to go on with its entries, or to watch one of them, always spelled from the root.
/// It is done exactly when every directory that it watches was listed, and fails exactly when the
/// root could not be watched, with that error.
pub proof fn traversals_ask_for_what_they_wait_for(root: Seq<u8>, inputs: Seq<SetupInput>)
    requires
        setup_in_turn(root, inputs),
    ensures
        ({
            let run = setup_run(root, inputs);
            let answer = setup_answer(root, inputs);
            &&& run.state.phase is WatchingRoot ==> answer == (SetupOutput::Watch {
                path: root,
                mode: WatchMode::NonRecursive,
            })
            &&& run.state.phase matches SetupPhase::Opening(dir) ==> answer
                == SetupOutput::ReadDir(join_all(root, dir))
            &&& run.state.phase is Listing <==> answer is NextEntry
            &&& run.state.phase matches SetupPhase::Watching { dir, name } ==> answer
                == (SetupOutput::Watch {
                path: join_all(root, dir.push(name)),
                mode: WatchMode::NonRecursive,
            })
            &&& run.state.phase is Finished <==> answer is Done || answer is Fail
            &&& answer is Done ==> run.state.pending.len() == 0 && listings_asked_for(
                root,
                inputs,
            ).len() == run.watched.len()
            &&& answer is Fail <==> inputs.len() > 0 && (inputs[0] matches SetupInput::Watched(
                Err(_),
            ))
            &&& answer is Fail ==> inputs.len() == 1 && answer == SetupOutput::Fail(
                FilesystemWatcherError::Notify(inputs[0]->Watched_0->Err_0),
            )
        }),
{
    traversals_keep_their_word(root, inputs);
}

/// A traversal lists each directory that it watches exactly once, in the order in which they were
/// watched: those it asked to list so far are the first ones of those, and the rest are waiting.
pub proof fn directories_are_listed_as_they_were_watched(root: Seq<u8>, inputs: Seq<SetupInput>)
    requires
        setup_in_turn(root, inputs),
    ensures
        ({
            let run = setup_run(root, inputs);
            let listed = listings_asked_for(root, inputs);
            &&& listed.len() + run.state.pending.len() == run.watched.len()
            &&& forall|i: int|
                0 <= i < listed.len() ==> #[trigger] listed[i] == join_all(root, run.watched[i])
            &&& forall|i: int|
                0 <= i < run.state.pending.len() ==> #[trigger] run.state.pending[i]
                    == run.watched[listed.len() + i]
        }),
{
    traversals_keep_their_word(root, inputs);
}

/// A traversal can be told next whatever can come of what it asked for last, and nothing else.
/// Once it is done or has failed, it can be told nothing.
pub proof fn traversals_expect_what_they_ask_for(
    root: Seq<u8>,
    inputs: Seq<SetupInput>,
    input: SetupInput,
)
    requires
        setup_in_turn(root, inputs),
    ensures
        setup_in_turn(root, inputs.push(input)) <==> match setup_answer(root, inputs) {
            SetupOutput::Watch { .. } => input is Watched,
            SetupOutput::ReadDir(_) => input is Opened,
            SetupOutput::NextEntry => match input {
                SetupInput::Entry { name, is_dir: _ } => plain_name(name),
                _ => input is EndOfDir,
            },
            SetupOutput::Done => false,
            SetupOutput::Fail(_) => false,
        },
{
    assert(inputs.push(input).drop_last() == inputs);
    traversals_keep_their_word(root, inputs);
}

/// What a traversal answers is settled by what it was told so far. Once the root is watched, it
/// lists the root, or fails where the root is not; the outcome of any other watch, and a
/// directory that could be opened, is followed by the next entry; the end of a directory, and one
/// that could not be opened, by the first watched directory that was not listed yet, if there is
/// one; and an entry by a watch on it if it is a directory that is not excluded, and else by the
/// next entry.
pub proof fn answers_follow_from_what_was_told(
    root: Seq<u8>,
    inputs: Seq<SetupInput>,
    input: SetupInput,
)
    requires
        setup_in_turn(root, inputs.push(input)),
    ensures
        ({
            let watched = setup_run(root, inputs).watched;
            let listed = listings_asked_for(root, inputs).len() as int;
            let next = if listed < watched.len() {
                SetupOutput::ReadDir(join_all(root, watched[listed]))
            } else {
                SetupOutput::Done
            };
            setup_answer(root, inputs.push(input)) == match input {
                SetupInput::Watched(Ok(_)) if inputs.len() == 0 => SetupOutput::ReadDir(root),
                SetupInput::Watched(Err(error)) if inputs.len() == 0 => SetupOutput::Fail(
                    FilesystemWatcherError::Notify(error),
                ),
                SetupInput::Watched(_) => SetupOutput::NextEntry,
                SetupInput::Opened { readable } => if readable {
                    SetupOutput::NextEntry
                } else {
                    next
                },
                SetupInput::EndOfDir => next,
                SetupInput::Entry { name, is_dir } => if is_dir && !excluded_name(name) {
                    SetupOutput::Watch {
                        path: join_all(root, watched[listed - 1].push(name)),
                        mode: WatchMode::NonRecursive,
                    }
                } else {
                    SetupOutput::NextEntry
                },
            }
        }),
        setup_run(root, inputs.push(input)).watched == if input matches SetupInput::Watched(Ok(_)) {
            setup_run(root, inputs).watched.push(dirs_asked_for(root, inputs).last())
        } else {
            setup_run(root, inputs).watched
        },
{
    let listed = listings_asked_for(root, inputs).len() as int;
    let run = setup_run(root, inputs);
    assert(inputs.push(input).drop_last() == inputs);
    traversals_keep_their_word(root, inputs);
    if run.state.pending.len() > 0 {
        assert(run.state.pending[0] == run.watched[listed]);
    }
    assert(join_all(root, Seq::empty()) == root);
}

/// A driver that goes on until it is told that all is done has watched exactly the directories of
/// the tree that can be reached from the root without passing through an excluded one, and has
/// listed every one of them.
pub proof fn done_means_that_all_is_watched(
    tree: Tree,
    root: Seq<u8>,
    inputs: Seq<SetupInput>,
    names: Seq<Seq<u8>>,
)
    requires
        tree_told(tree, root, inputs),
        setup_answer(root, inputs) is Done,
    ensures
        setup_run(root, inputs).watched.contains(names) <==> reachable(tree, names),
        reachable(tree, names) ==> listings_asked_for(root, inputs).contains(join_all(root, names)),
{
    tree_told_is_in_turn(tree, root, inputs);
    traversals_keep_their_word(root, inputs);
    finished_traversal_watches_what_is_reachable(tree, root, inputs, names);
    if reachable(tree, names) {
        let i = setup_run(root, inputs).watched.index_of(names);
        assert(listings_asked_for(root, inputs)[i] == join_all(root, names));
    }
}

proof fn tree_told_is_in_turn(tree: Tree, root: Seq<u8>, inputs: Seq<SetupInput>)
    requires
        tree_told(tree, root, inputs),
    ensures
        setup_in_turn(root, inputs),
    decreases inputs.len(),
{
    if inputs.len() > 0 {
        tree_told_is_in_turn(tree, root, inputs.drop_last());
    }
}

} // verus!
