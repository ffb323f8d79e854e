//! What a whole traversal comes to: which directories end up watched, and in which order.
//!
//! A directory stands here by the names of the entries through which it is reached from the root
//! of the traversal; the root itself is reached through none.

use vstd::prelude::*;

use crate::exclude::excluded_name;
use crate::filter::{allowed, has_excluded_component, match_below_root, RuleSet};
use crate::path::{components, join_all, joining_all_adds_components, lies_under, plain_name};
use crate::rules::RuleMatch;
use crate::watches::{
    next_dir, setup_expects, setup_start, setup_step, SetupInput, SetupOutput, SetupPhase,
    SetupState, WatchMode,
};

verus! {

/// A traversal with its past: the directories watched so far, in order, and the entries it was
/// told of, each with its directory, its name and whether it leads to a directory.
pub struct SetupRun {
    pub state: SetupState,
    pub watched: Seq<Seq<Seq<u8>>>,
    pub seen: Seq<(Seq<Seq<u8>>, Seq<u8>, bool)>,
}

/// The directory that the traversal waits for a watch on.
pub open spec fn watch_target(state: SetupState) -> Seq<Seq<u8>> {
    match state.phase {
        SetupPhase::Watching { dir, name } => dir.push(name),
        _ => Seq::empty(),
    }
}

/// The directory that is being listed.
pub open spec fn current_dir(state: SetupState) -> Option<Seq<Seq<u8>>> {
    match state.phase {
        SetupPhase::Opening(dir) => Some(dir),
        SetupPhase::Listing(dir) => Some(dir),
        SetupPhase::Watching { dir, name: _ } => Some(dir),
        _ => None,
    }
}

/// The traversal from a root that is told all this, one after the other.
pub open spec fn setup_run(root: Seq<u8>, inputs: Seq<SetupInput>) -> SetupRun
    decreases inputs.len(),
{
    if inputs.len() == 0 {
        SetupRun { state: setup_start(root), watched: Seq::empty(), seen: Seq::empty() }
    } else {
        let before = setup_run(root, inputs.drop_last());
        SetupRun {
            state: setup_step(before.state, inputs.last()).0,
            watched: match inputs.last() {
                SetupInput::Watched(Ok(_)) => before.watched.push(watch_target(before.state)),
                _ => before.watched,
            },
            seen: match (inputs.last(), current_dir(before.state)) {
                (SetupInput::Entry { name, is_dir }, Some(dir)) => before.seen.push(
                    (dir, name, is_dir),
                ),
                _ => before.seen,
            },
        }
    }
}

/// Each thing is told when the traversal expects it.
pub open spec fn setup_in_turn(root: Seq<u8>, inputs: Seq<SetupInput>) -> bool
    decreases inputs.len(),
{
    inputs.len() == 0 || {
        &&& setup_in_turn(root, inputs.drop_last())
        &&& setup_expects(setup_run(root, inputs.drop_last()).state.phase, inputs.last())
    }
}

/// None of the entries is an excluded directory, and each has a name that an entry can have.
pub open spec fn is_clear(names: Seq<Seq<u8>>) -> bool {
    forall|i: int|
        0 <= i < names.len() ==> plain_name(#[trigger] names[i]) && !excluded_name(names[i])
}

/// What holds at every point of a traversal, whatever it is told.
spec fn stays_clear(run: SetupRun) -> bool {
    let state = run.state;
    &&& forall|i: int| 0 <= i < run.watched.len() ==> is_clear(#[trigger] run.watched[i])
    &&& forall|i: int|
        0 <= i < state.pending.len() ==> run.watched.contains(#[trigger] state.pending[i])
    &&& current_dir(state) matches Some(dir) ==> run.watched.contains(dir)
    &&& state.phase matches SetupPhase::Watching { dir, name } ==> is_clear(dir.push(name))
    &&& state.phase is WatchingRoot ==> run.watched.len() == 0 && state.pending.len() == 0
        && run.seen.len() == 0
    &&& state.watched_count == if run.watched.len() <= u64::MAX {
        run.watched.len()
    } else {
        u64::MAX as nat
    }
}

proof fn next_dir_stays_clear(run: SetupRun)
    requires
        stays_clear(run),
        run.watched.len() > 0,
    ensures
        stays_clear(SetupRun { state: next_dir(run.state).0, ..run }),
{
    let state = run.state;
    let next = next_dir(state).0;
    assert forall|i: int| 0 <= i < next.pending.len() implies run.watched.contains(
        #[trigger] next.pending[i],
    ) by {
        assert(next.pending[i] == state.pending[i + 1]);
    }
    if state.pending.len() > 0 {
        assert(run.watched.contains(state.pending[0]));
    }
}

proof fn runs_stay_clear(root: Seq<u8>, inputs: Seq<SetupInput>)
    requires
        setup_in_turn(root, inputs),
    ensures
        stays_clear(setup_run(root, inputs)),
        setup_run(root, inputs).state.root == root,
    decreases inputs.len(),
{
    if inputs.len() > 0 {
        let input = inputs.last();
        let before = setup_run(root, inputs.drop_last());
        let after = setup_run(root, inputs);
        let state = before.state;
        runs_stay_clear(root, inputs.drop_last());
        // What is watched stays watched.
        assert forall|dir: Seq<Seq<u8>>| before.watched.contains(dir) implies
            #[trigger] after.watched.contains(dir) by {
            let i = before.watched.index_of(dir);
            assert(after.watched[i] == dir);
        }
        if input matches SetupInput::Watched(Ok(_)) {
            assert(after.watched.last() == watch_target(state));
            assert(after.watched.contains(watch_target(state)));
            assert forall|i: int| 0 <= i < after.watched.len() implies is_clear(
                #[trigger] after.watched[i],
            ) by {
                if i < before.watched.len() {
                    assert(after.watched[i] == before.watched[i]);
                }
            }
        }
        match (state.phase, input) {
            (SetupPhase::WatchingRoot, SetupInput::Watched(Ok(_))) => {
                let middle = SetupRun {
                    state: SetupState {
                        pending: seq![Seq::empty()],
                        watched_count: 1,
                        phase: SetupPhase::Opening(Seq::empty()),
                        ..state
                    },
                    ..after
                };
                next_dir_stays_clear(middle);
                assert(after.state == next_dir(middle.state).0);
            },
            (SetupPhase::Opening(dir), SetupInput::Opened { readable: false }) => {
                next_dir_stays_clear(before);
            },
            (SetupPhase::Listing(dir), SetupInput::EndOfDir) => {
                next_dir_stays_clear(before);
            },
            (SetupPhase::Listing(dir), SetupInput::Entry { name, is_dir }) => {
                let i = before.watched.index_of(dir);
                assert(is_clear(before.watched[i]));
            },
            (SetupPhase::Watching { dir, name }, SetupInput::Watched(Ok(_))) => {
                assert forall|i: int| 0 <= i < after.state.pending.len() implies
                    after.watched.contains(#[trigger] after.state.pending[i]) by {
                    if i < state.pending.len() {
                        assert(after.state.pending[i] == state.pending[i]);
                    }
                }
            },
            _ => {},
        }
    }
}

/// Whatever a traversal is told, the directories that it watches are the root and directories
/// below it with no excluded directory on the way; it asks to list only such as it watches; and
/// its count is that of the watches in place, as far as the count goes.
pub proof fn excluded_directories_are_never_watched(root: Seq<u8>, inputs: Seq<SetupInput>)
    requires
        setup_in_turn(root, inputs),
    ensures
        ({
            let run = setup_run(root, inputs);
            &&& forall|dir: Seq<Seq<u8>>| #[trigger] run.watched.contains(dir) ==> is_clear(dir)
            &&& current_dir(run.state) matches Some(dir) ==> run.watched.contains(dir)
            &&& run.watched.len() <= u64::MAX ==> run.state.watched_count == run.watched.len()
        }),
{
    runs_stay_clear(root, inputs);
}

/// The watches that a traversal from a root asks for, in order, when it is told all this: each
/// with the spelling of its directory and how far it reaches. Nothing else that a traversal asks
/// for places a watch or takes one away.
pub open spec fn watches_asked_for(root: Seq<u8>, inputs: Seq<SetupInput>) -> Seq<
    (Seq<u8>, WatchMode),
>
    decreases inputs.len(),
{
    if inputs.len() == 0 {
        seq![(root, WatchMode::NonRecursive)]
    } else {
        let before = watches_asked_for(root, inputs.drop_last());
        match setup_step(setup_run(root, inputs.drop_last()).state, inputs.last()).1 {
            SetupOutput::Watch { path, mode } => before.push((path, mode)),
            _ => before,
        }
    }
}

/// The directories that these watches are on.
pub open spec fn dirs_asked_for(root: Seq<u8>, inputs: Seq<SetupInput>) -> Seq<Seq<Seq<u8>>>
    decreases inputs.len(),
{
    if inputs.len() == 0 {
        seq![Seq::empty()]
    } else {
        let before = dirs_asked_for(root, inputs.drop_last());
        match setup_step(setup_run(root, inputs.drop_last()).state, inputs.last()).1 {
            SetupOutput::Watch { .. } => before.push(watch_target(setup_run(root, inputs).state)),
            _ => before,
        }
    }
}

/// Whatever a traversal is told, each watch that it asks for stays out of subdirectories, and is
/// on the root or on a directory that is reached from it with no excluded directory on the way.
pub proof fn every_watch_is_selective(root: Seq<u8>, inputs: Seq<SetupInput>)
    requires
        setup_in_turn(root, inputs),
    ensures
        ({
            let asked = watches_asked_for(root, inputs);
            let dirs = dirs_asked_for(root, inputs);
            &&& asked.len() == dirs.len()
            &&& forall|i: int|
                #![trigger asked[i]]
                #![trigger dirs[i]]
                0 <= i < asked.len() ==> {
                    &&& asked[i] == (join_all(root, dirs[i]), WatchMode::NonRecursive)
                    &&& is_clear(dirs[i])
                }
        }),
    decreases inputs.len(),
{
    if inputs.len() > 0 {
        every_watch_is_selective(root, inputs.drop_last());
        runs_stay_clear(root, inputs.drop_last());
        runs_stay_clear(root, inputs);
    }
}

/// Whatever a traversal is told, a directory that it watches is one that it asked to watch.
pub proof fn watched_directories_were_asked_for(
    root: Seq<u8>,
    inputs: Seq<SetupInput>,
    dir: Seq<Seq<u8>>,
)
    requires
        setup_in_turn(root, inputs),
        setup_run(root, inputs).watched.contains(dir),
    ensures
        dirs_asked_for(root, inputs).contains(dir),
        watches_asked_for(root, inputs).contains((join_all(root, dir), WatchMode::NonRecursive)),
{
    watches_come_from_requests(root, inputs);
    every_watch_is_selective(root, inputs);
    let i = dirs_asked_for(root, inputs).index_of(dir);
    assert(watches_asked_for(root, inputs)[i].0 == join_all(root, dir));
}

proof fn watches_come_from_requests(root: Seq<u8>, inputs: Seq<SetupInput>)
    requires
        setup_in_turn(root, inputs),
    ensures
        ({
            let run = setup_run(root, inputs);
            let asked = dirs_asked_for(root, inputs);
            &&& forall|dir: Seq<Seq<u8>>| #[trigger]
                run.watched.contains(dir) ==> asked.contains(dir)
            &&& run.state.phase is WatchingRoot || run.state.phase is Watching ==> asked.contains(
                watch_target(run.state),
            )
        }),
    decreases inputs.len(),
{
    let asked = dirs_asked_for(root, inputs);
    if inputs.len() == 0 {
        assert(asked[0] == Seq::<Seq<u8>>::empty());
    } else {
        let asked_before = dirs_asked_for(root, inputs.drop_last());
        let before = setup_run(root, inputs.drop_last());
        let after = setup_run(root, inputs);
        watches_come_from_requests(root, inputs.drop_last());
        push_keeps(asked_before, watch_target(after.state));
        push_keeps(before.watched, watch_target(before.state));
    }
}

/// Whatever a traversal is told, it asks for a watch below the root only once the watch on the
/// directory above is in place.
pub proof fn watches_follow_that_on_the_parent(root: Seq<u8>, inputs: Seq<SetupInput>)
    requires
        setup_in_turn(root, inputs),
        inputs.len() > 0,
        dirs_asked_for(root, inputs) != dirs_asked_for(root, inputs.drop_last()),
    ensures
        ({
            let dir = dirs_asked_for(root, inputs).last();
            &&& dirs_asked_for(root, inputs) == dirs_asked_for(root, inputs.drop_last()).push(dir)
            &&& dir.len() > 0
            &&& setup_run(root, inputs.drop_last()).watched.contains(dir.drop_last())
        }),
{
    let before = setup_run(root, inputs.drop_last());
    runs_stay_clear(root, inputs.drop_last());
    if let (SetupPhase::Listing(dir), SetupInput::Entry { name, is_dir }) = (
        before.state.phase,
        inputs.last(),
    ) {
        assert(dir.push(name).drop_last() == dir);
    }
}

/// The directories come in the order of their depths.
spec fn by_depth(dirs: Seq<Seq<Seq<u8>>>) -> bool {
    forall|i: int, j: int| 0 <= i <= j < dirs.len() ==> (#[trigger] dirs[i]).len() <= (
    #[trigger] dirs[j]).len()
}

/// What makes a traversal go breadth-first: the queue goes by depth and spans no more than one
/// level below the directory that is being listed, and no request reaches beyond that level.
spec fn goes_by_depth(root: Seq<u8>, inputs: Seq<SetupInput>) -> bool {
    let state = setup_run(root, inputs).state;
    let asked = dirs_asked_for(root, inputs);
    &&& by_depth(state.pending)
    &&& by_depth(asked)
    &&& state.phase is WatchingRoot ==> state.pending.len() == 0 && asked == seq![
        Seq::<Seq<u8>>::empty(),
    ]
    &&& current_dir(state) matches Some(dir) ==> {
        &&& forall|i: int|
            0 <= i < state.pending.len() ==> dir.len() <= (#[trigger] state.pending[i]).len()
                <= dir.len() + 1
        &&& forall|i: int| 0 <= i < asked.len() ==> (#[trigger] asked[i]).len() <= dir.len() + 1
    }
}

proof fn runs_go_by_depth(root: Seq<u8>, inputs: Seq<SetupInput>)
    requires
        setup_in_turn(root, inputs),
    ensures
        goes_by_depth(root, inputs),
    decreases inputs.len(),
{
    if inputs.len() > 0 {
        let before = setup_run(root, inputs.drop_last()).state;
        let after = setup_run(root, inputs).state;
        runs_go_by_depth(root, inputs.drop_last());
        if before.pending.len() > 0 {
            let shorter = before.pending.drop_first();
            assert(before.pending[0].len() <= before.pending[0].len());
            assert forall|i: int| 0 <= i < shorter.len() implies before.pending[0].len() <= (
            #[trigger] shorter[i]).len() by {
                assert(shorter[i] == before.pending[i + 1]);
            }
            assert(by_depth(shorter));
        }
        if let SetupPhase::WatchingRoot = before.phase {
            if let SetupInput::Watched(Ok(_)) = inputs.last() {
                assert(after.pending == Seq::<Seq<Seq<u8>>>::empty());
            }
        }
    }
}

/// Whatever a traversal is told, it goes breadth-first: from one watch that it asks for to the
/// next, the depth never falls, and so neither does the number of components of the path.
pub proof fn watches_are_asked_for_breadth_first(
    root: Seq<u8>,
    inputs: Seq<SetupInput>,
    i: int,
    j: int,
)
    requires
        setup_in_turn(root, inputs),
        0 <= i <= j < watches_asked_for(root, inputs).len(),
    ensures
        dirs_asked_for(root, inputs)[i].len() <= dirs_asked_for(root, inputs)[j].len(),
        components(watches_asked_for(root, inputs)[i].0).len() <= components(
            watches_asked_for(root, inputs)[j].0,
        ).len(),
{
    let dirs = dirs_asked_for(root, inputs);
    runs_go_by_depth(root, inputs);
    every_watch_is_selective(root, inputs);
    assert(watches_asked_for(root, inputs)[i].0 == join_all(root, dirs[i]));
    assert(watches_asked_for(root, inputs)[j].0 == join_all(root, dirs[j]));
    joining_all_adds_components(root, dirs[i]);
    joining_all_adds_components(root, dirs[j]);
}

/// Where no directory on the way to the root is excluded, the notifications of a watched
/// directory are not dropped for an excluded directory.
pub proof fn watched_paths_pass_the_exclusion(root: Seq<u8>, dir: Seq<Seq<u8>>)
    requires
        is_clear(dir),
    ensures
        lies_under(join_all(root, dir), root),
        has_excluded_component(join_all(root, dir)) <==> has_excluded_component(root),
{
    let path = join_all(root, dir);
    let depth = components(root).len();
    joining_all_adds_components(root, dir);
    assert(components(root).is_prefix_of(components(path)));
    if has_excluded_component(path) {
        let i = choose|i: int|
            0 <= i < components(path).len() && excluded_name(#[trigger] components(path)[i]);
        if i >= depth {
            assert(components(path)[i] == dir[i - depth]);
        }
        assert(components(root)[i] == components(path)[i]);
    }
    if has_excluded_component(root) {
        let i = choose|i: int|
            0 <= i < depth && excluded_name(#[trigger] components(root)[i]);
        assert(components(path)[i] == components(root)[i]);
    }
}

/// A change of a file in a watched directory is dropped only for the file's own name, for the
/// rules, or for an excluded directory on the way to the root.
pub proof fn changes_in_watched_directories_get_through(
    set: RuleSet,
    root: Seq<u8>,
    dir: Seq<Seq<u8>>,
    name: Seq<u8>,
)
    requires
        is_clear(dir),
        plain_name(name),
    ensures
        ({
            let path = join_all(root, dir.push(name));
            allowed(set, path, root) <==> {
                &&& !has_excluded_component(root)
                &&& !excluded_name(name)
                &&& match_below_root(set, path, root) != RuleMatch::Ignore
            }
        }),
{
    let names = dir.push(name);
    let path = join_all(root, names);
    if excluded_name(name) {
        joining_all_adds_components(root, names);
        assert(components(path)[components(path).len() - 1] == name);
    } else {
        watched_paths_pass_the_exclusion(root, names);
    }
}

/// No entry of a directory is told of twice.
pub open spec fn told_once(root: Seq<u8>, inputs: Seq<SetupInput>) -> bool
    decreases inputs.len(),
{
    inputs.len() == 0 || {
        let before = setup_run(root, inputs.drop_last());
        &&& told_once(root, inputs.drop_last())
        &&& match (inputs.last(), current_dir(before.state)) {
            (SetupInput::Entry { name, is_dir: _ }, Some(dir)) => {
                &&& !before.seen.contains((dir, name, true))
                &&& !before.seen.contains((dir, name, false))
            },
            _ => true,
        }
    }
}

/// Whatever a traversal is told, as long as it is told of no entry twice, it asks for no watch
/// twice.
pub proof fn no_watch_is_asked_for_twice(root: Seq<u8>, inputs: Seq<SetupInput>)
    requires
        setup_in_turn(root, inputs),
        told_once(root, inputs),
    ensures
        dirs_asked_for(root, inputs).no_duplicates(),
        watches_asked_for(root, inputs).no_duplicates(),
{
    let dirs = dirs_asked_for(root, inputs);
    let asked = watches_asked_for(root, inputs);
    requests_are_new(root, inputs);
    every_watch_is_selective(root, inputs);
    assert forall|i: int, j: int| 0 <= i < asked.len() && 0 <= j < asked.len() && i != j implies
        asked[i] != asked[j] by {
        assert(asked[i].0 == join_all(root, dirs[i]));
        assert(asked[j].0 == join_all(root, dirs[j]));
        joining_all_adds_components(root, dirs[i]);
        joining_all_adds_components(root, dirs[j]);
        if asked[i].0 == asked[j].0 {
            let depth = components(root).len() as int;
            assert((components(root) + dirs[i]).skip(depth) == dirs[i]);
            assert((components(root) + dirs[j]).skip(depth) == dirs[j]);
        }
    }
}

proof fn requests_are_new(root: Seq<u8>, inputs: Seq<SetupInput>)
    requires
        setup_in_turn(root, inputs),
        told_once(root, inputs),
    ensures
        ({
            let dirs = dirs_asked_for(root, inputs);
            &&& dirs.no_duplicates()
            &&& forall|i: int|
                0 <= i < dirs.len() && (#[trigger] dirs[i]).len() > 0 ==> setup_run(
                    root,
                    inputs,
                ).seen.contains((dirs[i].drop_last(), dirs[i].last(), true))
        }),
    decreases inputs.len(),
{
    if inputs.len() > 0 {
        let before = setup_run(root, inputs.drop_last());
        let after = setup_run(root, inputs);
        let dirs_before = dirs_asked_for(root, inputs.drop_last());
        let dirs = dirs_asked_for(root, inputs);
        requests_are_new(root, inputs.drop_last());
        assert forall|entry: (Seq<Seq<u8>>, Seq<u8>, bool)| before.seen.contains(entry) implies
            #[trigger] after.seen.contains(entry) by {
            let i = before.seen.index_of(entry);
            assert(after.seen[i] == entry);
        }
        if let (SetupPhase::Listing(dir), SetupInput::Entry { name, is_dir }) = (
            before.state.phase,
            inputs.last(),
        ) {
            assert(dir.push(name).drop_last() == dir);
            assert(after.seen.last() == (dir, name, is_dir));
        }
        assert forall|i: int| 0 <= i < dirs.len() && (#[trigger] dirs[i]).len() > 0 implies
            after.seen.contains((dirs[i].drop_last(), dirs[i].last(), true)) by {
            if i < dirs_before.len() {
                assert(dirs[i] == dirs_before[i]);
            }
        }
    }
}

/// Whatever a traversal is told, as long as it is told of no entry twice, it watches no directory
/// twice, so that its count is the number of directories that it watches.
pub proof fn no_directory_is_watched_twice(root: Seq<u8>, inputs: Seq<SetupInput>)
    requires
        setup_in_turn(root, inputs),
        told_once(root, inputs),
    ensures
        setup_run(root, inputs).watched.no_duplicates(),
{
    watches_are_new(root, inputs);
}

proof fn watches_are_new(root: Seq<u8>, inputs: Seq<SetupInput>)
    requires
        setup_in_turn(root, inputs),
        told_once(root, inputs),
    ensures
        ({
            let run = setup_run(root, inputs);
            &&& run.watched.no_duplicates()
            &&& forall|i: int|
                0 <= i < run.watched.len() && (#[trigger] run.watched[i]).len() > 0
                    ==> run.seen.contains((run.watched[i].drop_last(), run.watched[i].last(), true))
            &&& run.state.phase matches SetupPhase::Watching { dir, name } ==> {
                &&& !run.watched.contains(dir.push(name))
                &&& run.seen.contains((dir, name, true))
            }
        }),
    decreases inputs.len(),
{
    if inputs.len() > 0 {
        let input = inputs.last();
        let before = setup_run(root, inputs.drop_last());
        let after = setup_run(root, inputs);
        watches_are_new(root, inputs.drop_last());
        runs_stay_clear(root, inputs.drop_last());
        assert forall|entry: (Seq<Seq<u8>>, Seq<u8>, bool)| before.seen.contains(entry) implies
            #[trigger] after.seen.contains(entry) by {
            let i = before.seen.index_of(entry);
            assert(after.seen[i] == entry);
        }
        assert forall|i: int|
            0 <= i < after.watched.len() && (#[trigger] after.watched[i]).len() > 0 implies
            after.seen.contains((after.watched[i].drop_last(), after.watched[i].last(), true)) by {
            if i < before.watched.len() {
                assert(after.watched[i] == before.watched[i]);
            } else if let SetupPhase::Watching { dir, name } = before.state.phase {
                assert(dir.push(name).drop_last() == dir);
            }
        }
        if let (SetupPhase::Listing(dir), SetupInput::Entry { name, is_dir }) = (
            before.state.phase,
            input,
        ) {
            let child = dir.push(name);
            assert(child.drop_last() == dir);
            assert(after.seen.last() == (dir, name, is_dir));
            if before.watched.contains(child) {
                let i = before.watched.index_of(child);
                assert(before.watched[i].len() > 0);
                assert(before.seen.contains((dir, name, true)));
            }
        }
    }
}

/// A directory tree as the traversal comes to know it: which directories can be opened, what
/// entries they have, each with whether it leads to a directory, and which can be watched.
pub struct Tree {
    pub readable: spec_fn(Seq<Seq<u8>>) -> bool,
    pub has_entry: spec_fn(Seq<Seq<u8>>, Seq<u8>, bool) -> bool,
    pub watchable: spec_fn(Seq<Seq<u8>>) -> bool,
}

/// Whether the tree is such that the traversal is told this now. The end of a directory comes
/// once all of its entries have come.
pub open spec fn tree_tells(tree: Tree, run: SetupRun, input: SetupInput) -> bool {
    match (input, current_dir(run.state)) {
        (SetupInput::Watched(outcome), _) => outcome is Ok <==> (tree.watchable)(
            watch_target(run.state),
        ),
        (SetupInput::Opened { readable }, Some(dir)) => readable == (tree.readable)(dir),
        (SetupInput::Entry { name, is_dir }, Some(dir)) => (tree.has_entry)(dir, name, is_dir),
        (SetupInput::EndOfDir, Some(dir)) => forall|name: Seq<u8>, is_dir: bool| #[trigger]
            (tree.has_entry)(dir, name, is_dir) ==> run.seen.contains((dir, name, is_dir)),
        _ => true,
    }
}

/// The traversal is told what the tree is like, each thing when it expects it.
pub open spec fn tree_told(tree: Tree, root: Seq<u8>, inputs: Seq<SetupInput>) -> bool
    decreases inputs.len(),
{
    inputs.len() == 0 || {
        let before = setup_run(root, inputs.drop_last());
        &&& tree_told(tree, root, inputs.drop_last())
        &&& setup_expects(before.state.phase, inputs.last())
        &&& tree_tells(tree, before, inputs.last())
    }
}

/// The directory can be opened, and its entry `name` is a directory that is to be watched.
pub open spec fn is_wanted(tree: Tree, dir: Seq<Seq<u8>>, name: Seq<u8>) -> bool {
    &&& (tree.readable)(dir)
    &&& (tree.has_entry)(dir, name, true)
    &&& !excluded_name(name)
}

/// The directory can be opened, and its entry `name` is a directory that is to be watched and
/// can be.
pub open spec fn leads_on(tree: Tree, dir: Seq<Seq<u8>>, name: Seq<u8>) -> bool {
    is_wanted(tree, dir, name) && (tree.watchable)(dir.push(name))
}

/// The directory can be reached from the root through directories that can be opened and
/// watched, none of them excluded, and can be watched itself.
pub open spec fn reachable(tree: Tree, names: Seq<Seq<u8>>) -> bool {
    &&& (tree.watchable)(Seq::empty())
    &&& forall|i: int|
        0 <= i < names.len() ==> #[trigger] leads_on(tree, names.take(i), names[i])
}

/// The directory is the root, or a directory that is to be watched right below one that can be
/// reached; whether it can be watched itself is left open.
pub open spec fn is_due(tree: Tree, names: Seq<Seq<u8>>) -> bool {
    names.len() == 0 || {
        &&& reachable(tree, names.drop_last())
        &&& is_wanted(tree, names.drop_last(), names.last())
    }
}

/// The entry is watched if it should be.
spec fn settled(
    tree: Tree,
    watched: Seq<Seq<Seq<u8>>>,
    dir: Seq<Seq<u8>>,
    name: Seq<u8>,
    is_dir: bool,
) -> bool {
    is_dir && leads_on(tree, dir, name) ==> watched.contains(dir.push(name))
}

/// Every entry that the directory turned out to have was told of.
spec fn is_listed(
    tree: Tree,
    seen: Seq<(Seq<Seq<u8>>, Seq<u8>, bool)>,
    dir: Seq<Seq<u8>>,
) -> bool {
    (tree.readable)(dir) ==> forall|name: Seq<u8>, is_dir: bool| #[trigger]
        (tree.has_entry)(dir, name, is_dir) ==> seen.contains((dir, name, is_dir))
}

/// What holds at every point of a traversal of the tree.
spec fn covers_so_far(tree: Tree, run: SetupRun) -> bool {
    let state = run.state;
    &&& forall|path: Seq<Seq<u8>>| #[trigger]
        run.watched.contains(path) ==> reachable(tree, path)
    &&& forall|path: Seq<Seq<u8>>| #[trigger]
        run.watched.contains(path) ==> state.pending.contains(path) || current_dir(state) == Some(
            path,
        ) || is_listed(tree, run.seen, path)
    &&& forall|dir: Seq<Seq<u8>>, name: Seq<u8>, is_dir: bool| #[trigger]
        run.seen.contains((dir, name, is_dir)) ==> settled(tree, run.watched, dir, name, is_dir)
            || state.phase == (SetupPhase::Watching { dir, name })
    &&& match state.phase {
        SetupPhase::Listing(dir) => (tree.readable)(dir),
        SetupPhase::Watching { dir, name } => {
            &&& (tree.readable)(dir)
            &&& (tree.has_entry)(dir, name, true)
            &&& !excluded_name(name)
        },
        SetupPhase::Finished => state.pending.len() == 0,
        _ => true,
    }
    &&& !(state.phase is WatchingRoot) && (tree.watchable)(Seq::empty()) ==> run.watched.contains(
        Seq::empty(),
    )
}

proof fn push_keeps(watched: Seq<Seq<Seq<u8>>>, path: Seq<Seq<u8>>)
    ensures
        forall|other: Seq<Seq<u8>>| #[trigger]
            watched.push(path).contains(other) <==> watched.contains(other) || other == path,
{
    assert forall|other: Seq<Seq<u8>>| watched.contains(other) || other == path implies
        #[trigger] watched.push(path).contains(other) by {
        if watched.contains(other) {
            let i = watched.index_of(other);
            assert(watched.push(path)[i] == other);
        } else {
            assert(watched.push(path)[watched.len() as int] == path);
        }
    }
}

/// Turning to the next directory keeps the cover once the current directory is listed.
proof fn next_dir_covers(tree: Tree, run: SetupRun)
    requires
        covers_so_far(tree, run),
        !(run.state.phase is WatchingRoot),
        !(run.state.phase is Watching),
        current_dir(run.state) matches Some(dir) ==> run.state.pending.contains(dir) || is_listed(
            tree,
            run.seen,
            dir,
        ),
    ensures
        covers_so_far(tree, SetupRun { state: next_dir(run.state).0, ..run }),
{
    let state = run.state;
    let next = next_dir(state).0;
    assert forall|path: Seq<Seq<u8>>| #[trigger]
        run.watched.contains(path) implies next.pending.contains(path) || current_dir(next) == Some(
        path,
    ) || is_listed(tree, run.seen, path) by {
        if state.pending.contains(path) {
            let i = state.pending.index_of(path);
            if i > 0 {
                assert(next.pending[i - 1] == path);
            }
        }
    }
}

/// A directory that is reached stays reached one entry further down.
proof fn reaches_further(tree: Tree, dir: Seq<Seq<u8>>, name: Seq<u8>)
    requires
        reachable(tree, dir),
        leads_on(tree, dir, name),
    ensures
        reachable(tree, dir.push(name)),
{
    let names = dir.push(name);
    assert forall|i: int| 0 <= i < names.len() implies #[trigger] leads_on(
        tree,
        names.take(i),
        names[i],
    ) by {
        if i < dir.len() {
            assert(names.take(i) == dir.take(i));
            assert(names[i] == dir[i]);
            assert(leads_on(tree, dir.take(i), dir[i]));
        } else {
            assert(names.take(i) == dir);
        }
    }
}

proof fn runs_cover(tree: Tree, root: Seq<u8>, inputs: Seq<SetupInput>)
    requires
        tree_told(tree, root, inputs),
    ensures
        setup_in_turn(root, inputs),
        covers_so_far(tree, setup_run(root, inputs)),
        setup_run(root, inputs).state.root == root,
    decreases inputs.len(),
{
    if inputs.len() > 0 {
        let input = inputs.last();
        let before = setup_run(root, inputs.drop_last());
        let after = setup_run(root, inputs);
        let state = before.state;
        runs_cover(tree, root, inputs.drop_last());
        runs_stay_clear(root, inputs.drop_last());
        match (state.phase, input) {
            (SetupPhase::WatchingRoot, SetupInput::Watched(Ok(_))) => {
                let start = Seq::<Seq<u8>>::empty();
                push_keeps(before.watched, start);
                let middle = SetupRun {
                    state: SetupState {
                        pending: seq![start],
                        watched_count: 1,
                        phase: SetupPhase::Opening(start),
                        ..state
                    },
                    ..after
                };
                assert(middle.state.pending[0] == start);
                next_dir_covers(tree, middle);
                assert(after.state == next_dir(middle.state).0);
            },
            (SetupPhase::Opening(dir), SetupInput::Opened { readable: false }) => {
                next_dir_covers(tree, before);
            },
            (SetupPhase::Listing(dir), SetupInput::EndOfDir) => {
                next_dir_covers(tree, before);
            },
            (SetupPhase::Listing(dir), SetupInput::Entry { name, is_dir }) => {
                assert forall|entry: (Seq<Seq<u8>>, Seq<u8>, bool)|
                    before.seen.contains(entry) implies #[trigger] after.seen.contains(entry) by {
                    let i = before.seen.index_of(entry);
                    assert(after.seen[i] == entry);
                }
                assert forall|path: Seq<Seq<u8>>| is_listed(tree, before.seen, path) implies
                    #[trigger] is_listed(tree, after.seen, path) by {}
                assert forall|d: Seq<Seq<u8>>, n: Seq<u8>, k: bool| #[trigger]
                    after.seen.contains((d, n, k)) implies settled(tree, after.watched, d, n, k)
                    || after.state.phase == (SetupPhase::Watching { dir: d, name: n }) by {
                    let i = after.seen.index_of((d, n, k));
                    if i < before.seen.len() {
                        assert(before.seen[i] == (d, n, k));
                        assert(before.seen.contains((d, n, k)));
                    }
                }
            },
            (SetupPhase::Watching { dir, name }, SetupInput::Watched(outcome)) => {
                let path = dir.push(name);
                assert(before.watched.contains(dir));
                if outcome is Ok {
                    push_keeps(before.watched, path);
                    push_keeps(before.state.pending, path);
                    reaches_further(tree, dir, name);
                }
                assert forall|d: Seq<Seq<u8>>, n: Seq<u8>, k: bool| #[trigger]
                    after.seen.contains((d, n, k)) implies settled(tree, after.watched, d, n, k) by {
                    assert(before.seen.contains((d, n, k)));
                }
            },
            _ => {},
        }
    }
}

/// A traversal that comes to its end has watched exactly the directories that can be reached
/// from the root without passing through an excluded one. Where the root cannot be watched,
/// that is none.
pub proof fn finished_traversal_watches_what_is_reachable(
    tree: Tree,
    root: Seq<u8>,
    inputs: Seq<SetupInput>,
    names: Seq<Seq<u8>>,
)
    requires
        tree_told(tree, root, inputs),
        setup_run(root, inputs).state.phase is Finished,
    ensures
        setup_run(root, inputs).watched.contains(names) <==> reachable(tree, names),
    decreases names.len(),
{
    runs_cover(tree, root, inputs);
    if reachable(tree, names) && names.len() > 0 {
        let dir = names.drop_last();
        assert(dir == names.take(names.len() - 1));
        assert(leads_on(tree, dir, names.last()));
        assert(reachable(tree, dir)) by {
            assert forall|i: int| 0 <= i < dir.len() implies #[trigger] leads_on(
                tree,
                dir.take(i),
                dir[i],
            ) by {
                assert(dir.take(i) == names.take(i));
                assert(leads_on(tree, names.take(i), names[i]));
            }
        }
        finished_traversal_watches_what_is_reachable(tree, root, inputs, dir);
        assert((tree.has_entry)(dir, names.last(), true));
        assert(setup_run(root, inputs).seen.contains((dir, names.last(), true)));
        assert(names == dir.push(names.last()));
    } else if reachable(tree, names) {
        assert(names == Seq::<Seq<u8>>::empty());
    }
}

proof fn requests_are_due(tree: Tree, root: Seq<u8>, inputs: Seq<SetupInput>)
    requires
        tree_told(tree, root, inputs),
    ensures
        ({
            let dirs = dirs_asked_for(root, inputs);
            &&& dirs.contains(Seq::empty())
            &&& forall|dir: Seq<Seq<u8>>| #[trigger] dirs.contains(dir) ==> is_due(tree, dir)
            &&& forall|dir: Seq<Seq<u8>>, name: Seq<u8>| #[trigger]
                setup_run(root, inputs).seen.contains((dir, name, true)) && !excluded_name(name)
                    ==> dirs.contains(dir.push(name))
        }),
    decreases inputs.len(),
{
    let dirs = dirs_asked_for(root, inputs);
    if inputs.len() == 0 {
        assert(dirs[0] == Seq::<Seq<u8>>::empty());
    } else {
        let dirs_before = dirs_asked_for(root, inputs.drop_last());
        let before = setup_run(root, inputs.drop_last());
        let after = setup_run(root, inputs);
        requests_are_due(tree, root, inputs.drop_last());
        runs_cover(tree, root, inputs.drop_last());
        runs_stay_clear(root, inputs.drop_last());
        push_keeps(dirs_before, watch_target(after.state));
        if let (SetupPhase::Listing(dir), SetupInput::Entry { name, is_dir }) = (
            before.state.phase,
            inputs.last(),
        ) {
            assert(dir.push(name).drop_last() == dir);
            assert forall|d: Seq<Seq<u8>>, n: Seq<u8>| #[trigger]
                after.seen.contains((d, n, true)) && !excluded_name(n) implies dirs.contains(
                d.push(n),
            ) by {
                let i = after.seen.index_of((d, n, true));
                if i < before.seen.len() {
                    assert(before.seen[i] == (d, n, true));
                    assert(before.seen.contains((d, n, true)));
                }
            }
        }
    }
}

/// A traversal that comes to its end has asked for watches on exactly the root and the
/// directories right below watched ones that are not excluded, whether they could be watched or
/// not.
pub proof fn finished_traversal_asked_for_what_is_due(
    tree: Tree,
    root: Seq<u8>,
    inputs: Seq<SetupInput>,
    names: Seq<Seq<u8>>,
)
    requires
        tree_told(tree, root, inputs),
        setup_run(root, inputs).state.phase is Finished,
    ensures
        dirs_asked_for(root, inputs).contains(names) <==> is_due(tree, names),
{
    requests_are_due(tree, root, inputs);
    if is_due(tree, names) && names.len() > 0 {
        let dir = names.drop_last();
        runs_cover(tree, root, inputs);
        finished_traversal_watches_what_is_reachable(tree, root, inputs, dir);
        assert((tree.has_entry)(dir, names.last(), true));
        assert(setup_run(root, inputs).seen.contains((dir, names.last(), true)));
        assert(names == dir.push(names.last()));
    } else if names.len() == 0 {
        assert(names == Seq::<Seq<u8>>::empty());
    }
}

} // verus!
