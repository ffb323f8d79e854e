//! Which files ignore rules are collected from.
//!
//! A scan walks a directory tree for `.gitignore` files and then looks for the repository's own
//! exclude file. The scan itself touches no disk: it is told what the walk came upon, and
//! answers with the file to add, if any, and with what to do next.

use vstd::prelude::*;
use vstd::string::*;
use vstd::utf8::{
    encode_utf8, encode_utf8_decode_utf8, encode_utf8_valid_utf8, is_ascii_chars,
    is_ascii_chars_encode_utf8,
};

use crate::error::FilesystemWatcherError;
use crate::exclude::{
    excluded_name, is_excluded_name, name_text, names_spell_what_they_encode, spells,
};
use crate::path::{
    components, join, join_all, joining_all_adds_components, lies_under, plain_name, WatchPath,
};

verus! {

/// Whether the walk takes up an entry: a directory that is not excluded, to go down into it, or
/// a file called `.gitignore`. Where the kind of the entry is unknown, it is no directory.
pub open spec fn walk_takes(name: Seq<u8>, is_dir: Option<bool>) -> bool {
    !excluded_name(name) && (is_dir == Some(true) || name_text(name) == Some(".gitignore"@))
}

/// Whether the walk takes up an entry.
pub fn walk_admits(name: &[u8], is_dir: Option<bool>) -> (admitted: bool)
    ensures
        admitted == walk_takes(name@, is_dir),
{
    // Skip common dependency and build directories to prevent memory leaks
    if is_excluded_name(name) {
        return false;
    }
    // only recurse into directories and .gitignore files
    match is_dir {
        Some(true) => true,
        _ => spells(name, ".gitignore"),
    }
}

/// The kinds of operating system error that the scan tells apart.
#[derive(Debug, Clone, Copy, PartialEq, Eq, Structural)]
pub enum IoErrorKind {
    PermissionDenied,
    Other,
}

/// What the scan is told.
#[derive(Debug)]
pub enum ScanEvent {
    /// The walk came upon an entry; its kind may be unknown.
    Entry { path: WatchPath, is_dir: Option<bool> },
    /// The walk failed at some entry; `kind` is that of the operating system error behind the
    /// failure, if there is one.
    Failure { kind: Option<IoErrorKind>, error: ignore::Error },
    /// The walk is over.
    WalkEnd,
    /// Whether the exclude file exists.
    ExcludeChecked { exists: bool },
}

/// What the scan is told, over spellings.
pub enum ScanInput {
    Entry { path: Seq<u8>, is_dir: Option<bool> },
    Failure { kind: Option<IoErrorKind>, error: ignore::Error },
    WalkEnd,
    ExcludeChecked { exists: bool },
}

impl View for ScanEvent {
    type V = ScanInput;

    open spec fn view(&self) -> ScanInput {
        match *self {
            ScanEvent::Entry { path, is_dir } => ScanInput::Entry { path: path@, is_dir },
            ScanEvent::Failure { kind, error } => ScanInput::Failure { kind, error },
            ScanEvent::WalkEnd => ScanInput::WalkEnd,
            ScanEvent::ExcludeChecked { exists } => ScanInput::ExcludeChecked { exists },
        }
    }
}

/// What is to be done next.
#[derive(Debug)]
pub enum ScanStep {
    /// Go on with the walk.
    Walk,
    /// Find out whether this file exists.
    CheckExclude(WatchPath),
    /// Compile the rules collected.
    Build,
    /// Give up.
    Fail(FilesystemWatcherError),
}

/// The scan's answer: the file to add the rules of first, if any, and what to do then.
#[derive(Debug)]
pub struct ScanReply {
    pub add: Option<WatchPath>,
    pub next: ScanStep,
}

/// What is to be done next, over spellings.
pub enum ScanNext {
    Walk,
    CheckExclude(Seq<u8>),
    Build,
    Fail(FilesystemWatcherError),
}

/// The scan's answer, over spellings.
pub struct ScanOutput {
    pub add: Option<Seq<u8>>,
    pub next: ScanNext,
}

impl View for ScanReply {
    type V = ScanOutput;

    open spec fn view(&self) -> ScanOutput {
        ScanOutput {
            add: match self.add {
                Some(path) => Some(path@),
                None => None,
            },
            next: match self.next {
                ScanStep::Walk => ScanNext::Walk,
                ScanStep::CheckExclude(path) => ScanNext::CheckExclude(path@),
                ScanStep::Build => ScanNext::Build,
                ScanStep::Fail(error) => ScanNext::Fail(error),
            },
        }
    }
}

/// How far a scan has come.
#[derive(Debug, Clone, Copy, PartialEq, Eq, Structural)]
pub enum ScanPhase {
    Walking,
    CheckingExclude,
    Finished,
}

/// The repository's own exclude file, under the scanned directory.
pub open spec fn exclude_file(root: Seq<u8>) -> Seq<u8> {
    join(join(join(root, encode_utf8(".git"@)), encode_utf8("info"@)), encode_utf8("exclude"@))
}

/// Whether a scan can be told this now.
pub open spec fn scan_expects(phase: ScanPhase, input: ScanInput) -> bool {
    match phase {
        ScanPhase::Walking => input !is ExcludeChecked,
        ScanPhase::CheckingExclude => input is ExcludeChecked,
        ScanPhase::Finished => false,
    }
}

/// A failure that ends the scan. An entry that may not be read is skipped instead.
pub open spec fn ends_scan(input: ScanInput) -> bool {
    input matches ScanInput::Failure { kind, error } && kind != Some(IoErrorKind::PermissionDenied)
}

/// What the scan of a directory makes of what it is told.
pub open spec fn scan_step(root: Seq<u8>, phase: ScanPhase, input: ScanInput) -> (
    ScanPhase,
    ScanOutput,
) {
    match input {
        ScanInput::Entry { path, is_dir } => (
            phase,
            ScanOutput {
                add: if is_dir == Some(true) {
                    None
                } else {
                    Some(path)
                },
                next: ScanNext::Walk,
            },
        ),
        ScanInput::Failure { kind, error } => if ends_scan(input) {
            (
                ScanPhase::Finished,
                ScanOutput {
                    add: None,
                    next: ScanNext::Fail(FilesystemWatcherError::Ignore(error)),
                },
            )
        } else {
            (phase, ScanOutput { add: None, next: ScanNext::Walk })
        },
        ScanInput::WalkEnd => (
            ScanPhase::CheckingExclude,
            ScanOutput { add: None, next: ScanNext::CheckExclude(exclude_file(root)) },
        ),
        ScanInput::ExcludeChecked { exists } => (
            ScanPhase::Finished,
            ScanOutput {
                add: if exists {
                    Some(exclude_file(root))
                } else {
                    None
                },
                next: ScanNext::Build,
            },
        ),
    }
}

/// The repository's own exclude file, under a directory.
pub fn exclude_path(root: &WatchPath) -> (path: WatchPath)
    ensures
        path@ == exclude_file(root@),
{
    root.join(".git".as_bytes()).join("info".as_bytes()).join("exclude".as_bytes())
}

/// A scan for the files that ignore rules are collected from.
#[derive(Debug)]
pub struct GitignoreScan {
    root: WatchPath,
    phase: ScanPhase,
}

impl GitignoreScan {
    /// The directory that is scanned.
    pub closed spec fn root(&self) -> Seq<u8> {
        self.root@
    }

    /// How far the scan has come.
    pub closed spec fn phase(&self) -> ScanPhase {
        self.phase
    }

    /// Starts a scan: the walk is to begin.
    pub fn new(root: &WatchPath) -> (scan: GitignoreScan)
        ensures
            scan.root() == root@,
            scan.phase() == ScanPhase::Walking,
    {
        GitignoreScan { root: root.clone(), phase: ScanPhase::Walking }
    }

    /// Whether the scan can be told this now.
    pub fn expects(&self, event: &ScanEvent) -> (expected: bool)
        ensures
            expected == scan_expects(self.phase(), event@),
    {
        match self.phase {
            ScanPhase::Walking => !matches!(event, ScanEvent::ExcludeChecked { .. }),
            ScanPhase::CheckingExclude => matches!(event, ScanEvent::ExcludeChecked { .. }),
            ScanPhase::Finished => false,
        }
    }

    /// Tells the scan what happened.
    pub fn step(&mut self, event: ScanEvent) -> (reply: ScanReply)
        requires
            scan_expects(old(self).phase(), event@),
        ensures
            final(self).root() == old(self).root(),
            (final(self).phase(), reply@) == scan_step(
                old(self).root(),
                old(self).phase(),
                event@,
            ),
            event is Entry ==> final(self).phase() == old(self).phase() && reply.next is Walk,
            event is WalkEnd ==> reply.add is None && reply.next is CheckExclude,
            event is ExcludeChecked ==> reply.next is Build,
            event matches ScanEvent::Failure { kind, error } ==> reply.add is None && if kind
                == Some(IoErrorKind::PermissionDenied) {
                final(self).phase() == old(self).phase() && reply.next is Walk
            } else {
                reply.next == ScanStep::Fail(FilesystemWatcherError::Ignore(error))
            },
    {
        match event {
            ScanEvent::Entry { path, is_dir } => {
                // everything that is not a directory and is named .gitignore
                let add = match is_dir {
                    Some(true) => None,
                    _ => Some(path),
                };
                ScanReply { add, next: ScanStep::Walk }
            },
            ScanEvent::Failure { kind: Some(IoErrorKind::PermissionDenied), error: _ } => {
                // Skip entries we don't have permission to read
                ScanReply { add: None, next: ScanStep::Walk }
            },
            ScanEvent::Failure { kind: _, error } => {
                self.phase = ScanPhase::Finished;
                ScanReply { add: None, next: ScanStep::Fail(FilesystemWatcherError::Ignore(error)) }
            },
            ScanEvent::WalkEnd => {
                self.phase = ScanPhase::CheckingExclude;
                ScanReply { add: None, next: ScanStep::CheckExclude(exclude_path(&self.root)) }
            },
            ScanEvent::ExcludeChecked { exists } => {
                self.phase = ScanPhase::Finished;
                let add = if exists {
                    Some(exclude_path(&self.root))
                } else {
                    None
                };
                ScanReply { add, next: ScanStep::Build }
            },
        }
    }
}

/// What has come of a scan: how far it is, the files added in their order, and the error it gave
/// up with, if it did.
pub struct ScanRun {
    pub phase: ScanPhase,
    pub added: Seq<Seq<u8>>,
    pub failed: Option<FilesystemWatcherError>,
}

/// The scan of a directory that is told all this, one after the other.
pub open spec fn scan_run(root: Seq<u8>, inputs: Seq<ScanInput>) -> ScanRun
    decreases inputs.len(),
{
    if inputs.len() == 0 {
        ScanRun { phase: ScanPhase::Walking, added: Seq::empty(), failed: None }
    } else {
        let before = scan_run(root, inputs.drop_last());
        let (phase, output) = scan_step(root, before.phase, inputs.last());
        ScanRun {
            phase,
            added: match output.add {
                Some(path) => before.added.push(path),
                None => before.added,
            },
            failed: match output.next {
                ScanNext::Fail(error) => Some(error),
                _ => before.failed,
            },
        }
    }
}

/// Each thing is told when the scan expects it.
pub open spec fn scan_in_turn(root: Seq<u8>, inputs: Seq<ScanInput>) -> bool
    decreases inputs.len(),
{
    inputs.len() == 0 || {
        &&& scan_in_turn(root, inputs.drop_last())
        &&& scan_expects(scan_run(root, inputs.drop_last()).phase, inputs.last())
    }
}

/// An entry of the walk that is not known to be a directory.
pub open spec fn is_file_entry(input: ScanInput) -> bool {
    input matches ScanInput::Entry { path: _, is_dir } && is_dir != Some(true)
}

/// The path of an entry.
pub open spec fn entry_path(input: ScanInput) -> Seq<u8> {
    input->Entry_path
}

/// The files among the entries of the walk, in the order in which they were come upon.
pub open spec fn walked_files(inputs: Seq<ScanInput>) -> Seq<Seq<u8>> {
    inputs.filter(|input: ScanInput| is_file_entry(input)).map_values(
        |input: ScanInput| entry_path(input),
    )
}

/// A scan adds every file of the walk, in order, and after the walk the exclude file if there is
/// one; nothing else. It fails if and only if the walk failed at last with an error other than a
/// missing permission, and then with that error. It is over once it has failed or knows of the
/// exclude file.
pub proof fn scan_adds_the_walked_files(root: Seq<u8>, inputs: Seq<ScanInput>)
    requires
        scan_in_turn(root, inputs),
    ensures
        ({
            let run = scan_run(root, inputs);
            let has_exclude = inputs.len() > 0 && inputs.last() == ScanInput::ExcludeChecked {
                exists: true,
            };
            let failure = if inputs.len() > 0 && ends_scan(inputs.last()) {
                Some(FilesystemWatcherError::Ignore(inputs.last()->error))
            } else {
                None
            };
            &&& run.added == if has_exclude {
                walked_files(inputs).push(exclude_file(root))
            } else {
                walked_files(inputs)
            }
            &&& run.failed == failure
            &&& run.phase == ScanPhase::Finished <==> inputs.len() > 0 && (ends_scan(inputs.last())
                || inputs.last() is ExcludeChecked)
        }),
    decreases inputs.len(),
{
    reveal_with_fuel(Seq::filter, 1);
    if inputs.len() > 0 {
        let front = inputs.drop_last();
        let last = inputs.last();
        scan_adds_the_walked_files(root, front);
        let is_file = |input: ScanInput| is_file_entry(input);
        assert(inputs.filter(is_file) == if is_file_entry(last) {
            front.filter(is_file).push(last)
        } else {
            front.filter(is_file)
        });
        assert(walked_files(inputs) == if is_file_entry(last) {
            walked_files(front).push(entry_path(last))
        } else {
            walked_files(front)
        });
    } else {
        assert(walked_files(inputs) == Seq::<Seq<u8>>::empty());
    }
}

/// Every file that the walk takes up for a scan to add is called `.gitignore`.
pub proof fn walked_files_are_gitignore_files(inputs: Seq<ScanInput>)
    requires
        forall|i: int|
            0 <= i < inputs.len() && is_file_entry(#[trigger] inputs[i]) ==> {
                let names = components(entry_path(inputs[i]));
                names.len() > 0 && walk_takes(names.last(), inputs[i]->Entry_is_dir)
            },
    ensures
        forall|i: int|
            0 <= i < walked_files(inputs).len() ==> name_text(
                components(#[trigger] walked_files(inputs)[i]).last(),
            ) == Some(".gitignore"@),
{
    let is_file = |input: ScanInput| is_file_entry(input);
    assert forall|i: int| 0 <= i < walked_files(inputs).len() implies name_text(
        components(#[trigger] walked_files(inputs)[i]).last(),
    ) == Some(".gitignore"@) by {
        inputs.lemma_filter_pred(is_file, i);
        let input = inputs.filter(is_file)[i];
        inputs.lemma_filter_contains_rev(is_file, input);
        assert(walked_files(inputs)[i] == entry_path(input));
    }
}

/// Something in a directory tree that a walk would come upon if nothing were left out by name:
/// what it tells the scan of it, and through which entries it is reached from the root of the
/// walk. A failure is met on opening the directory that it is reached at.
pub struct WalkItem {
    pub names: Seq<Seq<u8>>,
    pub input: ScanInput,
}

/// Whether the item lies inside of an excluded directory below the root.
pub open spec fn in_excluded_directory(item: WalkItem) -> bool {
    let depth = if item.input is Failure {
        item.names.len() as int
    } else {
        item.names.len() - 1
    };
    exists|i: int| 0 <= i < depth && excluded_name(#[trigger] item.names[i])
}

/// Whether a walk still comes upon the item when it leaves out by name what it does not take up:
/// it takes up every directory on the way, and the entry itself. The root is not asked about.
pub open spec fn walk_reaches(item: WalkItem) -> bool {
    match item.input {
        ScanInput::Entry { path: _, is_dir } => item.names.len() == 0 || {
            &&& forall|i: int|
                0 <= i < item.names.len() - 1 ==> walk_takes(#[trigger] item.names[i], Some(true))
            &&& walk_takes(item.names.last(), is_dir)
        },
        ScanInput::Failure { .. } => forall|i: int|
            0 <= i < item.names.len() ==> walk_takes(#[trigger] item.names[i], Some(true)),
        _ => false,
    }
}

/// What the scan is told of a tree, given all its items in the order of the walk.
pub open spec fn walk_inputs(items: Seq<WalkItem>) -> Seq<ScanInput> {
    items.filter(|item: WalkItem| walk_reaches(item)).map_values(|item: WalkItem| item.input)
}

/// The items outside of excluded directories.
pub open spec fn outside_excluded(items: Seq<WalkItem>) -> Seq<WalkItem> {
    items.filter(|item: WalkItem| !in_excluded_directory(item))
}

proof fn walk_stays_outside(items: Seq<WalkItem>)
    ensures
        walk_inputs(outside_excluded(items)) == walk_inputs(items),
    decreases items.len(),
{
    reveal_with_fuel(Seq::filter, 1);
    let reached = |item: WalkItem| walk_reaches(item);
    let outside = |item: WalkItem| !in_excluded_directory(item);
    if items.len() > 0 {
        let front = items.drop_last();
        let last = items.last();
        walk_stays_outside(front);
        assert(items.filter(reached) == if walk_reaches(last) {
            front.filter(reached).push(last)
        } else {
            front.filter(reached)
        });
        if walk_reaches(last) {
            assert(!in_excluded_directory(last)) by {
                assert forall|i: int|
                    0 <= i < last.names.len() - 1 || (last.input is Failure && 0 <= i
                        < last.names.len()) implies !excluded_name(#[trigger] last.names[i]) by {
                    assert(walk_takes(last.names[i], Some(true)));
                }
            }
        }
        let kept = items.filter(outside);
        let kept_front = front.filter(outside);
        if outside(last) {
            assert(kept == kept_front.push(last));
            assert(kept.drop_last() == kept_front);
            assert(kept.filter(reached) == if walk_reaches(last) {
                kept_front.filter(reached).push(last)
            } else {
                kept_front.filter(reached)
            });
        } else {
            assert(kept == kept_front);
        }
        assert(walk_inputs(items) == if walk_reaches(last) {
            walk_inputs(front).push(last.input)
        } else {
            walk_inputs(front)
        });
        assert(walk_inputs(kept) == if walk_reaches(last) {
            walk_inputs(kept_front).push(last.input)
        } else {
            walk_inputs(kept_front)
        });
    } else {
        assert(outside_excluded(items) == items);
    }
}

/// What lies in an excluded directory below the root has no effect: of two trees that differ only
/// there, the scan is told the same, adds the same files in the same order, and comes out the
/// same.
pub proof fn excluded_directories_give_no_rules(
    root: Seq<u8>,
    first: Seq<WalkItem>,
    second: Seq<WalkItem>,
    end: Seq<ScanInput>,
)
    requires
        outside_excluded(first) == outside_excluded(second),
    ensures
        walk_inputs(first) == walk_inputs(second),
        scan_run(root, walk_inputs(first) + end) == scan_run(root, walk_inputs(second) + end),
{
    walk_stays_outside(first);
    walk_stays_outside(second);
}

/// Each entry among the items is spelled from the root through the names it is reached by, which
/// are such as entries have.
pub open spec fn spelled_from(root: Seq<u8>, items: Seq<WalkItem>) -> bool {
    forall|i: int|
        0 <= i < items.len() && (#[trigger] items[i]).input is Entry ==> {
            &&& items[i].input->Entry_path == join_all(root, items[i].names)
            &&& forall|j: int|
                0 <= j < items[i].names.len() ==> plain_name(#[trigger] items[i].names[j])
        }
}

/// Whether the path lies under the root, with no excluded component below it.
pub open spec fn clear_below(root: Seq<u8>, path: Seq<u8>) -> bool {
    &&& lies_under(path, root)
    &&& forall|i: int|
        components(root).len() <= i < components(path).len() ==> !excluded_name(
            #[trigger] components(path)[i],
        )
}

pub(crate) proof fn reached_files_are_clear(root: Seq<u8>, items: Seq<WalkItem>, at: int)
    requires
        spelled_from(root, items),
        0 <= at < walk_inputs(items).len(),
        is_file_entry(walk_inputs(items)[at]),
    ensures
        clear_below(root, entry_path(walk_inputs(items)[at])),
{
    let reached = |item: WalkItem| walk_reaches(item);
    let item = items.filter(reached)[at];
    let path = entry_path(item.input);
    assert(item.input == walk_inputs(items)[at]);
    items.lemma_filter_pred(reached, at);
    items.lemma_filter_contains_rev(reached, item);
    let place = items.index_of(item);
    assert(items[place] == item);
    joining_all_adds_components(root, item.names);
    assert(components(root).is_prefix_of(components(path)));
    assert forall|i: int|
        components(root).len() <= i < components(path).len() implies !excluded_name(
        #[trigger] components(path)[i],
    ) by {
        let j = i - components(root).len();
        assert(components(path)[i] == item.names[j]);
        if j < item.names.len() - 1 {
            assert(walk_takes(item.names[j], Some(true)));
        }
    }
}

/// Every file that a walk comes upon for a scan to add lies under the root, with no excluded
/// directory on the way and no excluded name itself.
pub proof fn walked_files_lie_outside_excluded_directories(
    root: Seq<u8>,
    items: Seq<WalkItem>,
    file: int,
)
    requires
        spelled_from(root, items),
        0 <= file < walked_files(walk_inputs(items)).len(),
    ensures
        clear_below(root, walked_files(walk_inputs(items))[file]),
{
    let inputs = walk_inputs(items);
    let is_file = |input: ScanInput| is_file_entry(input);
    inputs.lemma_filter_pred(is_file, file);
    let input = inputs.filter(is_file)[file];
    inputs.lemma_filter_contains_rev(is_file, input);
    assert(walked_files(inputs)[file] == entry_path(input));
    reached_files_are_clear(root, items, inputs.index_of(input));
}

/// The exclude file is reached from the root through `.git` and `info`.
pub proof fn exclude_file_is_in_the_repository(root: Seq<u8>)
    ensures
        ({
            let names = seq![
                encode_utf8(".git"@),
                encode_utf8("info"@),
                encode_utf8("exclude"@),
            ];
            &&& exclude_file(root) == join_all(root, names)
            &&& components(exclude_file(root)) == components(root) + names
            &&& forall|i: int|
                0 <= i < names.len() ==> plain_name(#[trigger] names[i]) && !excluded_name(names[i])
        }),
{
    reveal_strlit(".git");
    reveal_strlit("info");
    reveal_strlit("exclude");
    reveal_strlit("node_modules");
    reveal_strlit(".pnpm");
    reveal_strlit("target");
    reveal_strlit("dist");
    reveal_strlit("build");
    reveal_strlit(".next");
    reveal_strlit(".nuxt");
    let texts = seq![".git"@, "info"@, "exclude"@];
    let names = seq![encode_utf8(".git"@), encode_utf8("info"@), encode_utf8("exclude"@)];
    assert forall|i: int| 0 <= i < names.len() implies plain_name(#[trigger] names[i])
        && !excluded_name(names[i]) by {
        let text = texts[i];
        assert(names[i] == encode_utf8(text));
        assert(is_ascii_chars(text));
        is_ascii_chars_encode_utf8(text);
        encode_utf8_valid_utf8(text);
        encode_utf8_decode_utf8(text);
        assert(names[i].len() > 1);
    }
    reveal_with_fuel(join_all, 4);
    assert(names.drop_last().drop_last().drop_last() == Seq::<Seq<u8>>::empty());
    assert(exclude_file(root) == join_all(root, names));
    joining_all_adds_components(root, names);
}

/// The exclude file lies under the root, with no excluded directory on the way.
pub proof fn exclude_file_lies_outside_excluded_directories(root: Seq<u8>)
    ensures
        clear_below(root, exclude_file(root)),
{
    let names = seq![encode_utf8(".git"@), encode_utf8("info"@), encode_utf8("exclude"@)];
    let path = exclude_file(root);
    exclude_file_is_in_the_repository(root);
    assert(components(root).is_prefix_of(components(path)));
    assert forall|i: int|
        components(root).len() <= i < components(path).len() implies !excluded_name(
        #[trigger] components(path)[i],
    ) by {
        assert(components(path)[i] == names[i - components(root).len()]);
    }
}

/// The walk goes down into every directory that is not excluded, and takes up every file called
/// `.gitignore`; it takes up nothing else.
pub proof fn walks_take_up_directories_and_gitignore_files(name: Seq<u8>, is_dir: Option<bool>)
    ensures
        is_dir == Some(true) ==> (walk_takes(name, is_dir) <==> !excluded_name(name)),
        is_dir != Some(true) ==> (walk_takes(name, is_dir) <==> name == encode_utf8(
            ".gitignore"@,
        )),
{
    reveal_strlit(".gitignore");
    reveal_strlit("node_modules");
    reveal_strlit(".pnpm");
    reveal_strlit("target");
    reveal_strlit("dist");
    reveal_strlit("build");
    reveal_strlit(".next");
    reveal_strlit(".nuxt");
    names_spell_what_they_encode(name, ".gitignore"@);
}

/// The files of a walk with one thing more are those without it, and that one if it is a file.
pub proof fn walked_files_come_one_by_one(inputs: Seq<ScanInput>, input: ScanInput)
    ensures
        walked_files(Seq::empty()) == Seq::<Seq<u8>>::empty(),
        walked_files(inputs.push(input)) == match input {
            ScanInput::Entry { path, is_dir } if is_dir != Some(true) => walked_files(
                inputs,
            ).push(path),
            _ => walked_files(inputs),
        },
{
    reveal_with_fuel(Seq::filter, 1);
    let longer = inputs.push(input);
    let is_file = |input: ScanInput| is_file_entry(input);
    assert(longer.drop_last() == inputs);
    assert(longer.filter(is_file) == if is_file_entry(input) {
        inputs.filter(is_file).push(input)
    } else {
        inputs.filter(is_file)
    });
    assert(walked_files(Seq::empty()) == Seq::<Seq<u8>>::empty());
    assert(walked_files(longer) == if is_file_entry(input) {
        walked_files(inputs).push(entry_path(input))
    } else {
        walked_files(inputs)
    });
}

/// What a scan is told and what it answers is seen as it is.
pub proof fn scans_are_seen_as_they_are(event: ScanEvent, reply: ScanReply)
    ensures
        event matches ScanEvent::Entry { path, is_dir } ==> event@ == (ScanInput::Entry {
            path: path@,
            is_dir,
        }),
        event matches ScanEvent::Failure { kind, error } ==> event@ == (ScanInput::Failure {
            kind,
            error,
        }),
        event is WalkEnd ==> event@ is WalkEnd,
        event matches ScanEvent::ExcludeChecked { exists } ==> event@
            == (ScanInput::ExcludeChecked { exists }),
        reply.add matches Some(path) ==> reply@.add == Some(path@),
        reply.add is None ==> reply@.add is None,
        reply.next is Walk <==> reply@.next is Walk,
        reply.next matches ScanStep::CheckExclude(path) ==> reply@.next == ScanNext::CheckExclude(
            path@,
        ),
        reply.next is Build <==> reply@.next is Build,
        reply.next matches ScanStep::Fail(error) ==> reply@.next == ScanNext::Fail(error),
{
}

} // verus!
