//! Which change notifications are passed on.

use ignore::gitignore::Gitignore;
use vstd::prelude::*;

use crate::exclude::{excluded_name, is_excluded_name};
use crate::path::{
    below, canonicalize_lossy, components, has_extension, lies_under, plain_span, rooted,
    spans, spans_are_plain, Resolution, ResolvedPath, WatchPath, DOT, SLASH,
};
use crate::rules::{
    ask_rules, can_be_asked, gitignore_root, gitignore_rules, rules_match, without_dot_slash,
    IgnoreRule, RuleMatch,
};

verus! {

/// Whether some component of the path is an excluded directory.
pub open spec fn has_excluded_component(path: Seq<u8>) -> bool {
    exists|i: int| 0 <= i < components(path).len() && excluded_name(#[trigger] components(path)[i])
}

/// A set of ignore rules: the directory that it belongs to, and its rules.
pub struct RuleSet {
    pub root: Seq<u8>,
    pub rules: Seq<IgnoreRule>,
}

/// The contents of a compiled set of rules.
pub open spec fn rule_set(gitignore: Gitignore) -> RuleSet {
    RuleSet { root: gitignore_root(gitignore), rules: gitignore_rules(gitignore) }
}

/// How the path below the watched root fares under the rules. A path without an extension is
/// taken for a directory.
pub open spec fn match_below_root(set: RuleSet, path: Seq<u8>, root: Seq<u8>) -> RuleMatch {
    let relative = below(path, root);
    rules_match(set.root, set.rules, relative, !has_extension(relative))
}

/// Whether changes of the path are passed on: no component is excluded, and the rules do not
/// ignore the path unless it lies outside of the watched root.
pub open spec fn allowed(set: RuleSet, path: Seq<u8>, root: Seq<u8>) -> bool {
    &&& !has_excluded_component(path)
    &&& lies_under(path, root) ==> match_below_root(set, path, root) != RuleMatch::Ignore
}

/// Whether the rules can be asked about the path, if it comes to that.
pub open spec fn answerable(set: RuleSet, path: Seq<u8>, root: Seq<u8>) -> bool {
    !has_excluded_component(path) && lies_under(path, root) ==> can_be_asked(
        set.root,
        set.rules,
        below(path, root),
    )
}

/// What is left to find out about a path before its changes are passed on.
#[derive(Debug, PartialEq, Eq)]
pub enum PathCheck {
    /// A component is excluded: the changes are dropped.
    Excluded,
    /// The path lies outside of the watched root: the changes are passed on.
    OutsideRoot,
    /// The rules decide, on the path as it is spelled below the root.
    AskRules { path: Vec<u8>, is_dir: bool },
}

/// Whether some component of the path is an excluded directory.
pub fn has_excluded(path: &WatchPath) -> (excluded: bool)
    ensures
        excluded == has_excluded_component(path@),
{
    let count = path.component_count();
    for i in 0..count
        invariant
            count == components(path@).len(),
            forall|j: int| 0 <= j < i ==> !excluded_name(#[trigger] components(path@)[j]),
    {
        if is_excluded_name(path.component(i)) {
            return true;
        }
    }
    false
}

/// Settles what can be settled about a path without the rules.
pub fn check_path(canonical_path: &WatchPath, canonical_root: &WatchPath) -> (check: PathCheck)
    ensures
        check is Excluded <==> has_excluded_component(canonical_path@),
        check is OutsideRoot <==> !has_excluded_component(canonical_path@) && !lies_under(
            canonical_path@,
            canonical_root@,
        ),
        check matches PathCheck::AskRules { path, is_dir } ==> {
            &&& path@ == below(canonical_path@, canonical_root@)
            &&& is_dir == !has_extension(path@)
        },
{
    // Check for excluded directories that should always be filtered out
    if has_excluded(canonical_path) {
        return PathCheck::Excluded;
    }
    // Convert absolute path to relative path from the gitignore root
    match canonical_path.strip_prefix(canonical_root) {
        None => PathCheck::OutsideRoot,
        Some(relative) => {
            // Heuristic: assume paths without extensions are directories
            let is_dir = !relative.has_extension();
            PathCheck::AskRules { path: relative.into_bytes(), is_dir }
        },
    }
}

/// Whether changes of the path are passed on, unless that hangs on rules that cannot be asked.
pub fn try_path_allowed(
    path: &ResolvedPath,
    gi: &Gitignore,
    canonical_root: &WatchPath,
) -> (pass: Option<bool>)
    ensures
        pass is Some <==> answerable(rule_set(*gi), path@.form(), canonical_root@),
        pass matches Some(pass) ==> {
            &&& pass == allowed(rule_set(*gi), path@.form(), canonical_root@)
            &&& gitignore_rules(*gi).len() == 0 ==> pass == !has_excluded_component(path@.form())
            &&& has_excluded_component(path@.form()) ==> !pass
            &&& !has_excluded_component(path@.form()) && !lies_under(
                path@.form(),
                canonical_root@,
            ) ==> pass
            &&& !has_excluded_component(path@.form()) && lies_under(path@.form(), canonical_root@)
                ==> pass == (rules_match(
                gitignore_root(*gi),
                gitignore_rules(*gi),
                below(path@.form(), canonical_root@),
                !has_extension(below(path@.form(), canonical_root@)),
            ) != RuleMatch::Ignore)
        },
{
    match check_path(canonicalize_lossy(path), canonical_root) {
        PathCheck::Excluded => Some(false),
        // Path is outside the watched root, don't ignore it
        PathCheck::OutsideRoot => Some(true),
        PathCheck::AskRules { path, is_dir } => match ask_rules(gi, path.as_slice(), is_dir) {
            Some(matched) => Some(!matched.is_ignore()),
            None => None,
        },
    }
}

/// Whether changes of the path are passed on.
pub fn path_allowed(path: &ResolvedPath, gi: &Gitignore, canonical_root: &WatchPath) -> (pass: bool)
    requires
        answerable(rule_set(*gi), path@.form(), canonical_root@),
    ensures
        pass == allowed(rule_set(*gi), path@.form(), canonical_root@),
        gitignore_rules(*gi).len() == 0 ==> pass == !has_excluded_component(path@.form()),
        has_excluded_component(path@.form()) ==> !pass,
        !has_excluded_component(path@.form()) && !lies_under(path@.form(), canonical_root@)
            ==> pass,
        !has_excluded_component(path@.form()) && lies_under(path@.form(), canonical_root@)
            ==> pass == (rules_match(
            gitignore_root(*gi),
            gitignore_rules(*gi),
            below(path@.form(), canonical_root@),
            !has_extension(below(path@.form(), canonical_root@)),
        ) != RuleMatch::Ignore),
{
    match try_path_allowed(path, gi, canonical_root) {
        Some(pass) => pass,
        None => vstd::pervasive::unreached(),
    }
}

/// What a notification reports: the kinds of change, without their details.
#[derive(Debug, Clone, Copy, PartialEq, Eq, Structural)]
pub enum EventKind {
    Any,
    Access,
    Create,
    Modify,
    Remove,
    Other,
}

impl EventKind {
    /// Whether the notification reports an access, which changes nothing.
    pub fn is_access(&self) -> (access: bool)
        ensures
            access == (*self == EventKind::Access),
    {
        matches!(self, EventKind::Access)
    }
}

/// A change notification: what it reports, and of which paths.
#[derive(Debug)]
pub struct FileEvent {
    pub kind: EventKind,
    pub paths: Vec<ResolvedPath>,
}

/// What a notification says.
pub struct EventModel {
    pub kind: EventKind,
    pub paths: Seq<Resolution>,
}

impl View for FileEvent {
    type V = EventModel;

    open spec fn view(&self) -> EventModel {
        EventModel {
            kind: self.kind,
            paths: self.paths@.map_values(|path: ResolvedPath| path@),
        }
    }
}

/// Whether a notification is passed on: it reports no access, and every path is allowed.
pub open spec fn forwarded(set: RuleSet, event: EventModel, root: Seq<u8>) -> bool {
    &&& event.kind != EventKind::Access
    &&& forall|i: int|
        0 <= i < event.paths.len() ==> allowed(set, (#[trigger] event.paths[i]).form(), root)
}

/// Whether a notification is passed on where there are no rules: it reports no access, and no
/// path has an excluded component.
pub open spec fn forwarded_without_rules(event: EventModel) -> bool {
    &&& event.kind != EventKind::Access
    &&& forall|i: int|
        0 <= i < event.paths.len() ==> !has_excluded_component((#[trigger] event.paths[i]).form())
}

/// Whether the paths of a notification before an index are all allowed.
pub open spec fn allowed_before(
    set: RuleSet,
    event: EventModel,
    root: Seq<u8>,
    index: int,
) -> bool {
    forall|i: int| 0 <= i < index ==> allowed(set, (#[trigger] event.paths[i]).form(), root)
}

/// Whether the rules can be asked about every path of the notification that they are asked
/// about: those that come with no disallowed path before them.
pub open spec fn event_answerable(set: RuleSet, event: EventModel, root: Seq<u8>) -> bool {
    event.kind != EventKind::Access ==> forall|i: int|
        0 <= i < event.paths.len() && allowed_before(set, event, root, i) ==> answerable(
            set,
            (#[trigger] event.paths[i]).form(),
            root,
        )
}

/// Whether a debounced notification is passed on, unless that hangs on rules that cannot be
/// asked.
pub fn try_should_forward(
    event: &FileEvent,
    gi: &Gitignore,
    canonical_root: &WatchPath,
) -> (pass: Option<bool>)
    ensures
        pass is Some <==> event_answerable(rule_set(*gi), event@, canonical_root@),
        pass matches Some(pass) ==> {
            &&& pass == forwarded(rule_set(*gi), event@, canonical_root@)
            &&& gitignore_rules(*gi).len() == 0 ==> pass == forwarded_without_rules(event@)
            &&& pass <==> event.kind != EventKind::Access && forall|i: int|
                0 <= i < event.paths.len() ==> allowed(
                    rule_set(*gi),
                    (#[trigger] event@.paths[i]).form(),
                    canonical_root@,
                )
        },
{
    if event.kind.is_access() {
        // Ignore access events
        return Some(false);
    }
    let ghost set = rule_set(*gi);
    let ghost root = canonical_root@;
    for i in 0..event.paths.len()
        invariant
            set == rule_set(*gi),
            root == canonical_root@,
            event@.kind != EventKind::Access,
            allowed_before(set, event@, root, i as int),
            forall|j: int|
                0 <= j < i ==> answerable(set, (#[trigger] event@.paths[j]).form(), root),
            gitignore_rules(*gi).len() == 0 ==> forall|j: int|
                0 <= j < i ==> !has_excluded_component((#[trigger] event@.paths[j]).form()),
    {
        assert(event@.paths[i as int] == event.paths@[i as int]@);
        match try_path_allowed(&event.paths[i], gi, canonical_root) {
            None => {
                return None;
            },
            Some(false) => {
                assert forall|j: int|
                    0 <= j < event@.paths.len() && allowed_before(set, event@, root, j) implies answerable(
                    set,
                    (#[trigger] event@.paths[j]).form(),
                    root,
                ) by {
                    if j > i {
                        assert(allowed(set, event@.paths[i as int].form(), root));
                    }
                }
                return Some(false);
            },
            Some(true) => {},
        }
    }
    Some(true)
}

/// Whether a debounced notification is passed on.
pub fn debounced_should_forward(
    event: &FileEvent,
    gi: &Gitignore,
    canonical_root: &WatchPath,
) -> (pass: bool)
    requires
        event_answerable(rule_set(*gi), event@, canonical_root@),
    ensures
        pass == forwarded(rule_set(*gi), event@, canonical_root@),
        gitignore_rules(*gi).len() == 0 ==> pass == forwarded_without_rules(event@),
        pass <==> event.kind != EventKind::Access && forall|i: int|
            0 <= i < event.paths.len() ==> allowed(
                rule_set(*gi),
                (#[trigger] event@.paths[i]).form(),
                canonical_root@,
            ),
{
    match try_should_forward(event, gi, canonical_root) {
        Some(pass) => pass,
        None => vstd::pervasive::unreached(),
    }
}

/// The payloads of the notifications that are passed on, in their order.
pub open spec fn forwarded_payloads<T>(
    set: RuleSet,
    events: Seq<(FileEvent, T)>,
    root: Seq<u8>,
) -> Seq<T> {
    events.filter(|event: (FileEvent, T)| forwarded(set, event.0@, root)).map_values(
        |event: (FileEvent, T)| event.1,
    )
}

/// The payloads of the notifications that are passed on where there are no rules, in their order.
pub open spec fn forwarded_payloads_without_rules<T>(events: Seq<(FileEvent, T)>) -> Seq<T> {
    events.filter(|event: (FileEvent, T)| forwarded_without_rules(event.0@)).map_values(
        |event: (FileEvent, T)| event.1,
    )
}

/// Whether the rules can be asked about every notification of a batch.
pub open spec fn batch_answerable<T, E>(
    set: RuleSet,
    batch: Result<Vec<(FileEvent, T)>, E>,
    root: Seq<u8>,
) -> bool {
    batch matches Ok(events) ==> forall|i: int|
        0 <= i < events@.len() ==> event_answerable(set, (#[trigger] events@[i]).0@, root)
}

/// What is sent on for a batch: the payloads of the notifications that pass, or nothing where
/// none does; errors always, as they came. Without rules only access and excluded directories
/// count.
pub open spec fn batch_sends<T, E>(
    set: RuleSet,
    batch: Result<Vec<(FileEvent, T)>, E>,
    root: Seq<u8>,
    sent: Option<Result<Vec<T>, E>>,
) -> bool {
    match batch {
        Ok(events) => {
            let payloads = forwarded_payloads(set, events@, root);
            &&& match sent {
                Some(Ok(kept)) => kept@ == payloads && payloads.len() > 0,
                Some(Err(_)) => false,
                None => payloads.len() == 0,
            }
            &&& set.rules.len() == 0 ==> payloads == forwarded_payloads_without_rules(events@)
        },
        Err(errors) => sent == Some(Err::<Vec<T>, E>(errors)),
    }
}

/// What is to be done with a batch of notifications.
#[derive(Debug, PartialEq, Eq)]
pub enum BatchOutcome<T, E> {
    /// This is sent on.
    Send(Result<Vec<T>, E>),
    /// Nothing is sent on.
    Drop,
    /// Some notification hangs on rules that cannot be asked about it.
    Unanswerable,
}

/// What is sent on for a batch of debounced notifications, each with the payload that stands for
/// it, unless that hangs on rules that cannot be asked.
pub fn try_forward_batch<T, E>(
    batch: Result<Vec<(FileEvent, T)>, E>,
    gi: &Gitignore,
    canonical_root: &WatchPath,
) -> (outcome: BatchOutcome<T, E>)
    ensures
        outcome is Unanswerable <==> !batch_answerable(rule_set(*gi), batch, canonical_root@),
        outcome matches BatchOutcome::Send(sent) ==> batch_sends(
            rule_set(*gi),
            batch,
            canonical_root@,
            Some(sent),
        ),
        outcome is Drop ==> batch_sends(rule_set(*gi), batch, canonical_root@, None),
{
    match batch {
        Ok(events) => {
            let ghost all = events@;
            let ghost set = rule_set(*gi);
            let ghost root = canonical_root@;
            let ghost passes = |event: (FileEvent, T)| forwarded(set, event.0@, root);
            let ghost passes_without_rules = |event: (FileEvent, T)| forwarded_without_rules(event.0@);
            let mut kept: Vec<T> = Vec::new();
            for event in iter: events.into_iter()
                invariant
                    iter.seq() == all,
                    set == rule_set(*gi),
                    root == canonical_root@,
                    batch matches Ok(events) && events@ == all,
                    passes == (|event: (FileEvent, T)| forwarded(set, event.0@, root)),
                    forall|i: int|
                        0 <= i < iter.index() ==> event_answerable(set, (#[trigger] all[i]).0@, root),
                    kept@ == forwarded_payloads(set, all.take(iter.index()), root),
                    passes_without_rules == (|event: (FileEvent, T)| forwarded_without_rules(event.0@)),
                    gitignore_rules(*gi).len() == 0 ==> kept@ == forwarded_payloads_without_rules(
                        all.take(iter.index()),
                    ),
            {
                let ghost done = all.take(iter.index());
                let ghost next = all.take(iter.index() + 1);
                let (notification, payload) = event;
                proof {
                    assert(next.drop_last() == done);
                    assert(next.last() == event);
                    assert(all[iter.index()] == event);
                    reveal_with_fuel(Seq::filter, 1);
                    assert(next.filter(passes) == if passes(event) {
                        done.filter(passes).push(event)
                    } else {
                        done.filter(passes)
                    });
                    assert(next.filter(passes_without_rules) == if passes_without_rules(event) {
                        done.filter(passes_without_rules).push(event)
                    } else {
                        done.filter(passes_without_rules)
                    });
                }
                match try_should_forward(&notification, gi, canonical_root) {
                    None => {
                        assert(!event_answerable(set, all[iter.index()].0@, root));
                        return BatchOutcome::Unanswerable;
                    },
                    Some(true) => {
                        kept.push(payload);
                        assert(kept@ == forwarded_payloads(set, next, root));
                        assert(gitignore_rules(*gi).len() == 0 ==> kept@
                            == forwarded_payloads_without_rules(next));
                    },
                    Some(false) => {},
                }
            }
            assert(all.take(all.len() as int) == all);
            if kept.len() > 0 {
                BatchOutcome::Send(Ok(kept))
            } else {
                BatchOutcome::Drop
            }
        },
        // Always forward errors
        Err(errors) => BatchOutcome::Send(Err(errors)),
    }
}

/// What is sent on for a batch of debounced notifications, each with the payload that stands for
/// it: the payloads of those that pass, or nothing where none does. Errors are always sent on.
pub fn forward_batch<T, E>(
    batch: Result<Vec<(FileEvent, T)>, E>,
    gi: &Gitignore,
    canonical_root: &WatchPath,
) -> (sent: Option<Result<Vec<T>, E>>)
    requires
        batch_answerable(rule_set(*gi), batch, canonical_root@),
    ensures
        batch_sends(rule_set(*gi), batch, canonical_root@, sent),
{
    match try_forward_batch(batch, gi, canonical_root) {
        BatchOutcome::Send(sent) => Some(sent),
        BatchOutcome::Drop => None,
        BatchOutcome::Unanswerable => vstd::pervasive::unreached(),
    }
}

/// A notification of which some path lies in an excluded directory, however deep and on whatever
/// side of the root, is dropped whatever the rules are.
pub proof fn excluded_paths_are_dropped(
    set: RuleSet,
    event: EventModel,
    root: Seq<u8>,
    path: int,
    component: int,
)
    requires
        0 <= path < event.paths.len(),
        0 <= component < components(event.paths[path].form()).len(),
        excluded_name(components(event.paths[path].form())[component]),
    ensures
        !allowed(set, event.paths[path].form(), root),
        !forwarded(set, event, root),
{
    assert(has_excluded_component(event.paths[path].form()));
}

/// A notification of which some path below the root is ignored by the rules is dropped.
pub proof fn ignored_paths_are_dropped(set: RuleSet, event: EventModel, root: Seq<u8>, path: int)
    requires
        0 <= path < event.paths.len(),
        lies_under(event.paths[path].form(), root),
        match_below_root(set, event.paths[path].form(), root) == RuleMatch::Ignore,
    ensures
        !allowed(set, event.paths[path].form(), root),
        !forwarded(set, event, root),
{
}

/// Where an excluded directory lies on the way to the watched root, every path below the root is
/// disallowed.
pub proof fn excluded_root_blocks_everything(set: RuleSet, path: Seq<u8>, root: Seq<u8>)
    requires
        has_excluded_component(root),
        lies_under(path, root),
    ensures
        !allowed(set, path, root),
{
    let i = choose|i: int|
        0 <= i < components(root).len() && excluded_name(#[trigger] components(root)[i]);
    assert(components(path)[i] == components(root)[i]);
}

/// The rules do not reach beyond the watched root: a path outside of it is allowed unless a
/// component of it is excluded.
pub proof fn rules_stop_at_the_root(set: RuleSet, path: Seq<u8>, root: Seq<u8>)
    requires
        !lies_under(path, root),
    ensures
        allowed(set, path, root) <==> !has_excluded_component(path),
{
}

/// What is left of a path below a root that is not empty starts neither with a separator nor
/// with `./`.
proof fn rest_starts_with_a_name(path: Seq<u8>, root: Seq<u8>)
    requires
        components(root).len() > 0,
    ensures
        !rooted(below(path, root)),
        without_dot_slash(below(path, root)) == below(path, root),
{
    let depth = components(root).len() as int;
    let rest = below(path, root);
    spans_are_plain(path);
    if depth < spans(path).len() {
        let span = spans(path)[depth];
        assert(plain_span(path, span));
        assert(span.1 <= spans(path)[spans(path).len() - 1].1);
        assert(rest[0] == path[span.0]);
        if rest.len() >= 2 && rest[0] == DOT && rest[1] == SLASH {
            assert(rest[1] == path[span.0 + 1]);
            assert(span.1 == span.0 + 1);
            assert(path.subrange(span.0, span.1) =~= seq![DOT]);
        }
    }
}

/// Rules that were collected for an absolute root, and rules that belong to no directory, can be
/// asked about every path below a root that is not empty.
pub proof fn rules_of_an_absolute_root_are_answerable(
    set: RuleSet,
    path: Seq<u8>,
    root: Seq<u8>,
)
    requires
        components(root).len() > 0,
        set.root.len() == 0 || rooted(set.root),
    ensures
        answerable(set, path, root),
{
    let rest = below(path, root);
    rest_starts_with_a_name(path, root);
    if set.root.is_prefix_of(rest) {
        if rooted(set.root) {
            assert(rest[0] == set.root[0]);
        } else {
            assert(rest.skip(0) == rest);
        }
    }
}

/// Whatever the rules, they can be asked about a path below a root that is not empty, if the
/// path is spelled without two separators in a row.
pub proof fn tidy_paths_are_answerable(set: RuleSet, path: Seq<u8>, root: Seq<u8>)
    requires
        components(root).len() > 0,
        forall|i: int| 0 <= i < path.len() - 1 ==> #[trigger] path[i] != SLASH || path[i + 1] != SLASH,
    ensures
        answerable(set, path, root),
{
    let depth = components(root).len() as int;
    let rest = below(path, root);
    rest_starts_with_a_name(path, root);
    spans_are_plain(path);
    if depth < spans(path).len() {
        let start = spans(path)[depth].0;
        assert(spans(path)[spans(path).len() - 1].1 <= path.len());
        if set.root.is_prefix_of(rest) && rooted(rest.skip(set.root.len() as int)) {
            let at = start + set.root.len();
            assert(path[at] == SLASH);
            if rooted(rest.skip(set.root.len() as int).skip(1)) {
                assert(path[at + 1] == SLASH);
            }
        }
    }
}

/// Passing on is settled once: the notifications that were passed on are all passed on again.
pub proof fn forwarding_is_idempotent<T>(
    set: RuleSet,
    events: Seq<(FileEvent, T)>,
    root: Seq<u8>,
)
    ensures
        ({
            let passed = events.filter(|event: (FileEvent, T)| forwarded(set, event.0@, root));
            forwarded_payloads(set, passed, root) == forwarded_payloads(set, events, root)
        }),
    decreases events.len(),
{
    let passes = |event: (FileEvent, T)| forwarded(set, event.0@, root);
    reveal_with_fuel(Seq::filter, 2);
    if events.len() > 0 {
        let front = events.drop_last();
        forwarding_is_idempotent(set, front, root);
        let passed = events.filter(passes);
        let passed_front = front.filter(passes);
        if passes(events.last()) {
            assert(passed == passed_front.push(events.last()));
            assert(passed.drop_last() == passed_front);
            assert(passed.filter(passes) == passed_front.filter(passes).push(events.last()));
            assert(forwarded_payloads(set, passed, root) == forwarded_payloads(
                set,
                passed_front,
                root,
            ).push(events.last().1));
            assert(forwarded_payloads(set, events, root) == forwarded_payloads(set, front, root).push(
                events.last().1,
            ));
        } else {
            assert(passed == passed_front);
            assert(forwarded_payloads(set, events, root) == forwarded_payloads(set, front, root));
        }
    }
}

} // verus!
