//! What the filter comes to: which paths, notifications and batches get through it.

use ignore::gitignore::Gitignore;
use vstd::prelude::*;

use crate::exclude::excluded_name;
use crate::filter::{
    allowed, allowed_before, answerable, batch_answerable, batch_sends, event_answerable, forwarded,
    forwarded_payloads, forwarded_payloads_without_rules, forwarded_without_rules,
    has_excluded_component, rule_set, EventKind, EventModel, FileEvent, RuleSet,
};
use crate::path::{
    below, components, has_extension, join, joining_adds_a_component, lies_under, plain_name,
    shortest_paths_have_these_components, Resolution,
};
use crate::rules::{can_be_asked, gitignore_root, gitignore_rules, rules_match, RuleMatch};

verus! {

/// An entry of a directory has an excluded component if and only if the directory has one or the
/// entry's own name is excluded; the empty path has none.
pub proof fn excluded_components_add_up(dir: Seq<u8>, name: Seq<u8>)
    requires
        plain_name(name),
    ensures
        !has_excluded_component(Seq::empty()),
        has_excluded_component(join(dir, name)) <==> has_excluded_component(dir) || excluded_name(
            name,
        ),
{
    let path = join(dir, name);
    joining_adds_a_component(dir, name);
    shortest_paths_have_these_components();
    if has_excluded_component(dir) {
        let i = choose|i: int|
            0 <= i < components(dir).len() && excluded_name(#[trigger] components(dir)[i]);
        assert(components(path)[i] == components(dir)[i]);
    }
    if excluded_name(name) {
        assert(components(path)[components(dir).len() as int] == name);
    }
    if has_excluded_component(path) {
        let i = choose|i: int|
            0 <= i < components(path).len() && excluded_name(#[trigger] components(path)[i]);
        if i < components(dir).len() {
            assert(components(dir)[i] == components(path)[i]);
        }
    }
}

/// Whether a path has an excluded component is settled by its components, one by one.
pub proof fn excluded_components_are_found(path: Seq<u8>)
    ensures
        has_excluded_component(path) <==> exists|i: int|
            0 <= i < components(path).len() && excluded_name(#[trigger] components(path)[i]),
{
}

/// Below the watched root, where no component is excluded, the rules alone decide: a path is
/// allowed if and only if they do not ignore what is left of it, taken for a directory if that
/// has no extension.
pub proof fn the_rules_decide_below_the_root(gitignore: Gitignore, path: Seq<u8>, root: Seq<u8>)
    requires
        lies_under(path, root),
        forall|i: int|
            0 <= i < components(path).len() ==> !excluded_name(#[trigger] components(path)[i]),
    ensures
        allowed(rule_set(gitignore), path, root) <==> rules_match(
            gitignore_root(gitignore),
            gitignore_rules(gitignore),
            below(path, root),
            !has_extension(below(path, root)),
        ) != RuleMatch::Ignore,
{
}

/// A path that the rules do not decide about is allowed if and only if no component of it is
/// excluded.
pub proof fn outside_the_root_only_excluded_directories_count(
    set: RuleSet,
    path: Seq<u8>,
    root: Seq<u8>,
)
    requires
        !lies_under(path, root),
    ensures
        allowed(set, path, root) <==> forall|i: int|
            0 <= i < components(path).len() ==> !excluded_name(#[trigger] components(path)[i]),
{
}

/// Whether a path is allowed hangs on the rules only through what they say of the rest of the
/// path: two sets that say the same of it allow the same.
pub proof fn rules_count_only_by_what_they_say(
    first: RuleSet,
    second: RuleSet,
    path: Seq<u8>,
    root: Seq<u8>,
)
    requires
        lies_under(path, root) ==> {
            let rest = below(path, root);
            rules_match(first.root, first.rules, rest, !has_extension(rest)) == rules_match(
                second.root,
                second.rules,
                rest,
                !has_extension(rest),
            )
        },
    ensures
        allowed(first, path, root) <==> allowed(second, path, root),
{
}

/// The rules and the directory of a compiled set are those that it is asked by.
pub proof fn compiled_sets_are_seen_as_they_are(gitignore: Gitignore)
    ensures
        rule_set(gitignore).root == gitignore_root(gitignore),
        rule_set(gitignore).rules == gitignore_rules(gitignore),
{
}

/// A notification is seen with its kind and with each of its paths, in order.
pub proof fn notifications_are_seen_as_they_are(event: FileEvent)
    ensures
        event@.kind == event.kind,
        event@.paths.len() == event.paths@.len(),
        forall|i: int|
            0 <= i < event.paths@.len() ==> #[trigger] event@.paths[i] == event.paths@[i]@,
{
}

/// A notification is passed on if and only if it reports no access and each of its paths is
/// allowed.
pub proof fn allowed_notifications_are_passed_on(set: RuleSet, event: EventModel, root: Seq<u8>)
    ensures
        forwarded(set, event, root) <==> event.kind != EventKind::Access && forall|i: int|
            0 <= i < event.paths.len() ==> allowed(set, (#[trigger] event.paths[i]).form(), root),
        forwarded_without_rules(event) <==> event.kind != EventKind::Access && forall|i: int|
            0 <= i < event.paths.len() ==> !has_excluded_component(
                (#[trigger] event.paths[i]).form(),
            ),
{
}

/// Of two notifications, neither of an access, whose paths have the same forms, both are passed
/// on or neither is: what else they report does not count, nor does whether a path was resolved.
pub proof fn only_access_and_forms_count(
    set: RuleSet,
    first: EventModel,
    second: EventModel,
    root: Seq<u8>,
)
    requires
        first.kind != EventKind::Access,
        second.kind != EventKind::Access,
        first.paths.len() == second.paths.len(),
        forall|i: int|
            0 <= i < first.paths.len() ==> (#[trigger] first.paths[i]).form()
                == second.paths[i].form(),
    ensures
        forwarded(set, first, root) <==> forwarded(set, second, root),
        forwarded_without_rules(first) <==> forwarded_without_rules(second),
{
    assert forall|i: int| 0 <= i < first.paths.len() implies #[trigger] second.paths[i].form()
        == first.paths[i].form() by {
        assert(first.paths[i].form() == second.paths[i].form());
    }
    if forwarded(set, first, root) {
        assert forall|i: int| 0 <= i < second.paths.len() implies allowed(
            set,
            (#[trigger] second.paths[i]).form(),
            root,
        ) by {
            assert(allowed(set, first.paths[i].form(), root));
        }
    }
    if forwarded_without_rules(first) {
        assert forall|i: int| 0 <= i < second.paths.len() implies !has_excluded_component(
            (#[trigger] second.paths[i]).form(),
        ) by {
            assert(!has_excluded_component(first.paths[i].form()));
        }
    }
}

/// A notification with one path more is passed on if and only if it would be without that path,
/// and the path is allowed. One of no path at all is passed on unless it reports an access.
pub proof fn paths_count_one_by_one(
    set: RuleSet,
    kind: EventKind,
    paths: Seq<Resolution>,
    path: Resolution,
    root: Seq<u8>,
)
    ensures
        forwarded(set, EventModel { kind, paths: Seq::empty() }, root) <==> kind
            != EventKind::Access,
        forwarded(set, EventModel { kind, paths: paths.push(path) }, root) <==> forwarded(
            set,
            EventModel { kind, paths },
            root,
        ) && allowed(set, path.form(), root),
{
    let longer = EventModel { kind, paths: paths.push(path) };
    let shorter = EventModel { kind, paths };
    if forwarded(set, longer, root) {
        assert(longer.paths[paths.len() as int] == path);
        assert forall|i: int| 0 <= i < paths.len() implies allowed(
            set,
            (#[trigger] shorter.paths[i]).form(),
            root,
        ) by {
            assert(longer.paths[i] == paths[i]);
        }
    }
    if forwarded(set, shorter, root) && allowed(set, path.form(), root) {
        assert forall|i: int| 0 <= i < longer.paths.len() implies allowed(
            set,
            (#[trigger] longer.paths[i]).form(),
            root,
        ) by {
            if i < paths.len() {
                assert(longer.paths[i] == shorter.paths[i]);
            }
        }
    }
}

/// What is sent on for a batch with one notification more is what would be without it, followed
/// by its payload if it is passed on. For an empty batch nothing is.
pub proof fn payloads_are_sent_one_by_one<T>(
    set: RuleSet,
    events: Seq<(FileEvent, T)>,
    event: (FileEvent, T),
    root: Seq<u8>,
)
    ensures
        forwarded_payloads(set, Seq::<(FileEvent, T)>::empty(), root) == Seq::<T>::empty(),
        forwarded_payloads(set, events.push(event), root) == if forwarded(set, event.0@, root) {
            forwarded_payloads(set, events, root).push(event.1)
        } else {
            forwarded_payloads(set, events, root)
        },
        forwarded_payloads_without_rules(Seq::<(FileEvent, T)>::empty()) == Seq::<T>::empty(),
        forwarded_payloads_without_rules(events.push(event)) == if forwarded_without_rules(
            event.0@,
        ) {
            forwarded_payloads_without_rules(events).push(event.1)
        } else {
            forwarded_payloads_without_rules(events)
        },
{
    reveal_with_fuel(Seq::filter, 1);
    let passes = |event: (FileEvent, T)| forwarded(set, event.0@, root);
    let passes_without_rules = |event: (FileEvent, T)| forwarded_without_rules(event.0@);
    let longer = events.push(event);
    assert(longer.drop_last() == events);
    assert(longer.last() == event);
    assert(longer.filter(passes) == if passes(event) {
        events.filter(passes).push(event)
    } else {
        events.filter(passes)
    });
    assert(longer.filter(passes_without_rules) == if passes_without_rules(event) {
        events.filter(passes_without_rules).push(event)
    } else {
        events.filter(passes_without_rules)
    });
    assert(forwarded_payloads(set, longer, root) == if passes(event) {
        forwarded_payloads(set, events, root).push(event.1)
    } else {
        forwarded_payloads(set, events, root)
    });
    assert(forwarded_payloads_without_rules(longer) == if passes_without_rules(event) {
        forwarded_payloads_without_rules(events).push(event.1)
    } else {
        forwarded_payloads_without_rules(events)
    });
}

proof fn places_of_payloads<T>(set: RuleSet, events: Seq<(FileEvent, T)>, root: Seq<u8>) -> (places:
    Seq<int>)
    ensures
        places.len() == forwarded_payloads(set, events, root).len(),
        forall|k: int|
            0 <= k < places.len() ==> 0 <= #[trigger] places[k] < events.len() && forwarded(
                set,
                events[places[k]].0@,
                root,
            ) && forwarded_payloads(set, events, root)[k] == events[places[k]].1,
        forall|j: int, k: int| 0 <= j < k < places.len() ==> places[j] < places[k],
        forall|i: int|
            0 <= i < events.len() && forwarded(set, (#[trigger] events[i]).0@, root)
                ==> places.contains(i),
    decreases events.len(),
{
    if events.len() == 0 {
        assert(forwarded_payloads(set, events, root) == Seq::<T>::empty());
        Seq::empty()
    } else {
        let front = events.drop_last();
        let last = events.last();
        let at = front.len() as int;
        let before = places_of_payloads(set, front, root);
        payloads_are_sent_one_by_one(set, front, last, root);
        assert(front.push(last) == events);
        let places = if forwarded(set, last.0@, root) {
            before.push(at)
        } else {
            before
        };
        assert forall|i: int|
            0 <= i < events.len() && forwarded(set, (#[trigger] events[i]).0@, root) implies
            places.contains(i) by {
            if i < front.len() {
                assert(front[i] == events[i]);
                let k = before.index_of(i);
                assert(places[k] == i);
            } else {
                assert(places[before.len() as int] == i);
            }
        }
        assert forall|k: int| 0 <= k < places.len() implies 0 <= #[trigger] places[k]
            < events.len() && forwarded(set, events[places[k]].0@, root) && forwarded_payloads(
            set,
            events,
            root,
        )[k] == events[places[k]].1 by {
            if k < before.len() {
                assert(places[k] == before[k]);
                assert(front[before[k]] == events[before[k]]);
            }
        }
        places
    }
}

/// Of a batch of notifications each one that is passed on is sent, and no other: what is sent
/// lines up with exactly those, in their order, and nothing is sent where there are none. Errors
/// do not take the place of notifications.
pub proof fn exactly_what_passes_is_sent<T, E>(
    set: RuleSet,
    events: Vec<(FileEvent, T)>,
    root: Seq<u8>,
    sent: Option<Result<Vec<T>, E>>,
) -> (places: Seq<int>)
    requires
        batch_sends(set, Ok::<Vec<(FileEvent, T)>, E>(events), root, sent),
    ensures
        !(sent matches Some(Err(_))),
        sent is None <==> forall|i: int|
            0 <= i < events@.len() ==> !forwarded(set, (#[trigger] events@[i]).0@, root),
        sent is None ==> places.len() == 0,
        sent matches Some(Ok(payloads)) ==> {
            &&& payloads@.len() == places.len()
            &&& forall|k: int|
                0 <= k < places.len() ==> payloads@[k] == events@[#[trigger] places[k]].1
        },
        forall|k: int|
            0 <= k < places.len() ==> 0 <= #[trigger] places[k] < events@.len() && forwarded(
                set,
                events@[places[k]].0@,
                root,
            ),
        forall|j: int, k: int| 0 <= j < k < places.len() ==> places[j] < places[k],
        forall|i: int|
            0 <= i < events@.len() && forwarded(set, (#[trigger] events@[i]).0@, root)
                ==> places.contains(i),
{
    let places = places_of_payloads(set, events@, root);
    if sent is Some {
        assert(forwarded(set, events@[places[0]].0@, root));
    }
    places
}

/// Where there are no rules, what is sent of a batch lines up in the same way with the
/// notifications that report no access and have no path in an excluded directory.
pub proof fn without_rules_only_excluded_directories_hold_back<T, E>(
    set: RuleSet,
    events: Vec<(FileEvent, T)>,
    root: Seq<u8>,
    sent: Option<Result<Vec<T>, E>>,
)
    requires
        batch_sends(set, Ok::<Vec<(FileEvent, T)>, E>(events), root, sent),
        set.rules.len() == 0,
    ensures
        forwarded_payloads(set, events@, root) == forwarded_payloads_without_rules(events@),
{
}

/// Errors are sent on as they came, whatever the rules.
pub proof fn errors_are_sent_on<T, E>(
    set: RuleSet,
    errors: E,
    root: Seq<u8>,
    sent: Option<Result<Vec<T>, E>>,
)
    requires
        batch_sends(set, Err::<Vec<(FileEvent, T)>, E>(errors), root, sent),
    ensures
        sent == Some(Err::<Vec<T>, E>(errors)),
{
}

/// The rules are asked about a path only below the root and where no component is excluded; any
/// other path is settled without them.
pub proof fn rules_are_asked_only_where_they_decide(set: RuleSet, path: Seq<u8>, root: Seq<u8>)
    ensures
        answerable(set, path, root) <==> {
            ||| has_excluded_component(path)
            ||| !lies_under(path, root)
            ||| can_be_asked(set.root, set.rules, below(path, root))
        },
{
}

/// A notification with one path more can be settled if and only if it can without that path and,
/// unless it is dropped already, the path can be.
pub proof fn paths_are_settled_one_by_one(
    set: RuleSet,
    kind: EventKind,
    paths: Seq<Resolution>,
    path: Resolution,
    root: Seq<u8>,
)
    ensures
        event_answerable(set, EventModel { kind, paths: Seq::empty() }, root),
        event_answerable(set, EventModel { kind, paths: paths.push(path) }, root)
            <==> event_answerable(set, EventModel { kind, paths }, root) && (forwarded(
            set,
            EventModel { kind, paths },
            root,
        ) ==> answerable(set, path.form(), root)),
{
    let longer = EventModel { kind, paths: paths.push(path) };
    let shorter = EventModel { kind, paths };
    let len = paths.len() as int;
    assert(longer.paths[len] == path);
    assert forall|i: int| 0 <= i <= len implies #[trigger] allowed_before(set, longer, root, i)
        == allowed_before(set, shorter, root, i) by {
        if allowed_before(set, longer, root, i) {
            assert forall|j: int| 0 <= j < i implies allowed(
                set,
                (#[trigger] shorter.paths[j]).form(),
                root,
            ) by {
                assert(longer.paths[j] == shorter.paths[j]);
            }
        }
        if allowed_before(set, shorter, root, i) {
            assert forall|j: int| 0 <= j < i implies allowed(
                set,
                (#[trigger] longer.paths[j]).form(),
                root,
            ) by {
                assert(longer.paths[j] == shorter.paths[j]);
            }
        }
    }
    if kind != EventKind::Access {
        assert(forwarded(set, shorter, root) <==> allowed_before(set, shorter, root, len));
        if event_answerable(set, longer, root) {
            assert(allowed_before(set, longer, root, len) ==> answerable(
                set,
                longer.paths[len].form(),
                root,
            ));
            assert forall|i: int|
                0 <= i < len && allowed_before(set, shorter, root, i) implies answerable(
                set,
                (#[trigger] shorter.paths[i]).form(),
                root,
            ) by {
                assert(allowed_before(set, longer, root, i));
                assert(longer.paths[i] == shorter.paths[i]);
            }
        }
        if event_answerable(set, shorter, root) && (forwarded(set, shorter, root) ==> answerable(
            set,
            path.form(),
            root,
        )) {
            assert forall|i: int|
                0 <= i < longer.paths.len() && allowed_before(
                    set,
                    longer,
                    root,
                    i,
                ) implies answerable(set, (#[trigger] longer.paths[i]).form(), root) by {
                assert(allowed_before(set, shorter, root, i));
                if i < len {
                    assert(longer.paths[i] == shorter.paths[i]);
                }
            }
        }
    }
}

/// A batch can be settled if and only if each of its notifications can be; errors always can.
pub proof fn batches_are_settled_one_by_one<T, E>(
    set: RuleSet,
    events: Vec<(FileEvent, T)>,
    errors: E,
    root: Seq<u8>,
)
    ensures
        batch_answerable(set, Ok::<Vec<(FileEvent, T)>, E>(events), root) <==> forall|i: int|
            0 <= i < events@.len() ==> event_answerable(set, (#[trigger] events@[i]).0@, root),
        batch_answerable(set, Err::<Vec<(FileEvent, T)>, E>(errors), root),
{
    let batch = Ok::<Vec<(FileEvent, T)>, E>(events);
    if batch_answerable(set, batch, root) {
        assert forall|i: int| 0 <= i < events@.len() implies event_answerable(
            set,
            (#[trigger] events@[i]).0@,
            root,
        ) by {
            assert(batch->Ok_0@[i] == events@[i]);
        }
    }
}

} // verus!
