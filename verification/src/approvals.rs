//! What the decisions of an operator mean for the broker, and for what is shown to the operator.
use crate::broker;
use crate::canonical;
use crate::connectors;
use crate::connectors::Mapping;
use crate::decisions;
use crate::egress;
use crate::egress::{EgressError, Target};
use crate::pending;
use crate::pending::{Event, Pending};
use crate::pieces;
use crate::store;
use crate::store::{Decision, Step, Store, StoreError, TargetChange};
use crate::target_set;
use vstd::prelude::*;

verus! {

/// The broker lets through what the session may reach.
pub proof fn broker_goes_by_the_session(m: Store)
    requires
        store::allowed_in(m) is Ok,
    ensures
        broker::broker_targets(m.allowed) == Ok::<Set<Target>, EgressError>(
            store::allowed_in(m)->Ok_0,
        ),
{
}

/// From the moment a destination is approved the broker lets it through, together with what it let
/// through before.
pub proof fn approved_destination_is_let_through(m: Store, target: Seq<char>, t: Target, now: u64)
    requires
        decisions::is_readable(m),
        egress::target_named(target) == Ok::<Target, EgressError>(t),
        egress::is_connector_kind(t.kind) ==> connectors::ensured(
            store::mappings_in(m)->Ok_0,
            t,
        ) is Ok,
    ensures
        broker::broker_targets(store::decided(m, Decision::Allow, target, now).0.allowed) == Ok::<
            Set<Target>,
            EgressError,
        >(store::allowed_in(m)->Ok_0.insert(t)),
{
    decisions::allowed_target_may_be_reached(m, target, t, now);
    broker_goes_by_the_session(store::decided(m, Decision::Allow, target, now).0);
}

/// The targets that a session may reach are in canonical form.
proof fn allowed_targets_are_canonical(m: Store, t: Target)
    requires
        store::allowed_in(m) is Ok,
        store::allowed_in(m)->Ok_0.contains(t),
    ensures
        canonical::is_canonical(t),
{
    reveal(target_set::target_set_of);
    let lines = pieces::lines(m.allowed->Some_0);
    let s = target_set::targets_on_lines(lines)->Ok_0;
    target_set::file_targets_are_canonical(lines, s);
    let i = choose|i: int| 0 <= i < s.len() && s[i] == t;
    assert(canonical::is_canonical(s[i]));
}

/// From the moment a destination is rejected the broker blocks it and lets through all else that
/// it let through before. Of the tunnels that the broker keeps open none leads to it, and of the
/// connectors that the broker listens on none is for it.
pub proof fn rejected_destination_is_cut_off(
    m: Store,
    target: Seq<char>,
    t: Target,
    now: u64,
    tunnels: Seq<(Seq<char>, u64)>,
    keys: Seq<Seq<char>>,
    active: Seq<Mapping>,
)
    requires
        decisions::is_readable(m),
        egress::target_named(target) == Ok::<Target, EgressError>(t),
        keys.to_set() == target_set::target_texts(store::allowed_in(m)->Ok_0.remove(t)),
    ensures
        ({
            let after = store::decided(m, Decision::Deny, target, now).0;
            let kept = tunnels.filter(|tunnel: (Seq<char>, u64)| keys.contains(tunnel.0));
            &&& broker::broker_targets(after.allowed) == Ok::<Set<Target>, EgressError>(
                store::allowed_in(m)->Ok_0.remove(t),
            )
            &&& forall|id: u64| !#[trigger] kept.contains((egress::target_text(t), id))
            &&& egress::is_connector_kind(t.kind) ==> store::mappings_in(after) is Ok
                && !connectors::has_target(
                broker::reconciled(active, store::mappings_in(after)->Ok_0),
                t,
            )
        }),
{
    let after = store::decided(m, Decision::Deny, target, now).0;
    decisions::denied_target_may_not_be_reached(m, target, t, now);
    broker_goes_by_the_session(after);
    canonical::parsed_target_is_canonical(target, t);
    let rest = store::allowed_in(m)->Ok_0.remove(t);
    assert(!keys.contains(egress::target_text(t))) by {
        if keys.contains(egress::target_text(t)) {
            assert(keys.to_set().contains(egress::target_text(t)));
            let other = target_set::target_with_text(rest, egress::target_text(t));
            allowed_targets_are_canonical(m, other);
            canonical::canonical_text_identifies(t, other);
        }
    }
    let kept = tunnels.filter(|tunnel: (Seq<char>, u64)| keys.contains(tunnel.0));
    assert forall|id: u64| !#[trigger] kept.contains((egress::target_text(t), id)) by {
        broker::open_tunnels_are_approved(tunnels, keys, (egress::target_text(t), id));
    }
    if egress::is_connector_kind(t.kind) {
        let table = store::mappings_in(after)->Ok_0;
        let listened = broker::reconciled(active, table);
        if connectors::has_target(listened, t) {
            let i = choose|i: int| 0 <= i < listened.len() && (#[trigger] listened[i]).target == t;
            broker::listeners_follow_the_table(active, table, listened[i]);
            let k = choose|k: int| 0 <= k < table.len() && table[k] == listened[i];
            assert(table[k].target == t);
        }
    }
}

/// A decision that is carried out dismisses the attempts up to its time and keeps the log.
proof fn decision_dismisses(m: Store, decision: Decision, target: Seq<char>, t: Target, now: u64)
    requires
        decisions::is_readable(m),
        egress::target_named(target) == Ok::<Target, EgressError>(t),
        store::decided(m, decision, target, now).1 is Ok,
    ensures
        ({
            let after = store::decided(m, decision, target, now).0;
            &&& after.pending == m.pending
            &&& store::dismissed_in(after) == Ok::<Map<Seq<char>, u64>, StoreError>(
                store::dismissed_in(m)->Ok_0.insert(egress::target_text(t), now),
            )
        }),
{
    match decision {
        Decision::Allow => {
            if egress::is_connector_kind(t.kind) {
                let steps = store::allow_steps_of(t);
                assert(steps[0] == Step::EnsureConnector(t));
                assert(store::after_step(m, steps[0], now) is Ok);
            }
            decisions::allowed_target_may_be_reached(m, target, t, now);
        },
        Decision::Deny => decisions::denied_target_may_not_be_reached(m, target, t, now),
        Decision::Dismiss => decisions::dismissal_changes_only_the_dismissals(m, target, t, now),
    }
}

/// A destination that was decided about, in whatever way, is not shown any more, unless an attempt
/// to reach it came after the decision.
pub proof fn decided_destination_is_not_shown(
    m: Store,
    decision: Decision,
    target: Seq<char>,
    t: Target,
    now: u64,
    items: Seq<Pending>,
)
    requires
        decisions::is_readable(m),
        egress::target_named(target) == Ok::<Target, EgressError>(t),
        store::decided(m, decision, target, now).1 is Ok,
        store::is_pending_list(store::decided(m, decision, target, now).0, items),
        forall|k: int|
            0 <= k < store::events_in(m)->Ok_0.len() && pending::event_key(
                #[trigger] store::events_in(m)->Ok_0[k],
            ) == egress::target_text(t) ==> pending::event_epoch(store::events_in(m)->Ok_0[k])
                <= now,
    ensures
        forall|i: int|
            0 <= i < items.len() ==> (#[trigger] items[i]).target != egress::target_text(t),
{
    let after = store::decided(m, decision, target, now).0;
    decision_dismisses(m, decision, target, t, now);
    assert(store::events_in(after) == store::events_in(m));
    let events = store::events_in(after)->Ok_0;
    let allowed = target_set::target_texts(store::allowed_in(after)->Ok_0);
    let dismissed = store::dismissed_in(after)->Ok_0;
    let mappings = store::mappings_in(after)->Ok_0;
    assert forall|i: int| 0 <= i < items.len() implies (#[trigger] items[i]).target
        != egress::target_text(t) by {
        assert(pending::shows_attempt(items[i], events, allowed, dismissed, mappings));
        let k = choose|k: int| #[trigger]
            pending::is_shown(events, k, allowed, dismissed) && items[i] == pending::event_item(
                events[k],
                mappings,
            );
        assert(items[i].target == pending::event_key(events[k]));
    }
}

/// A destination that is not approved is shown again once an attempt to reach it comes after the
/// last decision about it.
pub proof fn later_attempt_is_shown(
    m: Store,
    events: Seq<Event>,
    e: Event,
    items: Seq<Pending>,
)
    requires
        store::is_pending_list(m, items),
        store::events_in(m) == Ok::<Seq<Event>, StoreError>(events.push(e)),
        !target_set::target_texts(store::allowed_in(m)->Ok_0).contains(pending::event_key(e)),
        pending::dismissed_until(store::dismissed_in(m)->Ok_0, pending::event_key(e))
            < pending::event_epoch(e),
    ensures
        items.contains(pending::event_item(e, store::mappings_in(m)->Ok_0)),
{
    let allowed = target_set::target_texts(store::allowed_in(m)->Ok_0);
    let dismissed = store::dismissed_in(m)->Ok_0;
    decisions::last_attempt_asks_for_a_decision(events, e, allowed, dismissed);
    assert(events.push(e)[events.len() as int] == e);
    assert(pending::is_shown(events.push(e), events.len() as int, allowed, dismissed));
}

// ---------------------------------------------------------------------------
// Many approvals
// ---------------------------------------------------------------------------

/// The state after steps, each of them with its time, of which the first that fails is the last
/// that is tried.
pub open spec fn after_timed_steps(m: Store, steps: Seq<(Step, u64)>) -> (
    Store,
    Result<(), StoreError>,
)
    decreases steps.len(),
{
    if steps.len() == 0 {
        (m, Ok(()))
    } else {
        match store::after_step(m, steps[0].0, steps[0].1) {
            Err(e) => (m, Err(e)),
            Ok(next) => after_timed_steps(next, steps.drop_first()),
        }
    }
}

/// Whether a step is one of those that approve destinations.
pub open spec fn is_approval_step(step: Step) -> bool {
    match step {
        Step::EnsureConnector(_) => true,
        Step::ChangeAllowed(TargetChange::Insert, t) => canonical::is_canonical(t),
        Step::Acknowledge(_) => true,
        _ => false,
    }
}

/// The steps of an approval are steps that approve, one of them adds the target, and one asks for a
/// connector where the target needs one.
pub proof fn approval_has_approval_steps(target: Seq<char>, t: Target)
    requires
        egress::target_named(target) == Ok::<Target, EgressError>(t),
    ensures
        ({
            let steps = store::decision_steps(Decision::Allow, t);
            &&& forall|i: int| 0 <= i < steps.len() ==> is_approval_step(#[trigger] steps[i])
            &&& steps.contains(Step::ChangeAllowed(TargetChange::Insert, t))
            &&& egress::is_connector_kind(t.kind) ==> steps.contains(Step::EnsureConnector(t))
        }),
{
    canonical::parsed_target_is_canonical(target, t);
    let steps = store::decision_steps(Decision::Allow, t);
    let change = Step::ChangeAllowed(TargetChange::Insert, t);
    if egress::is_connector_kind(t.kind) {
        assert(steps[0] == Step::EnsureConnector(t) && steps[1] == change);
    } else {
        assert(steps[0] == change);
    }
}

/// Whether one of the steps is `step`.
pub open spec fn takes_step(steps: Seq<(Step, u64)>, step: Step) -> bool {
    exists|i: int| 0 <= i < steps.len() && (#[trigger] steps[i]).0 == step
}

/// Whether the connectors of a session hold just one for a target.
pub open spec fn has_one_connector(m: Store, t: Target) -> bool {
    &&& store::mappings_in(m) is Ok
    &&& connectors::has_target(store::mappings_in(m)->Ok_0, t)
    &&& forall|i: int, j: int|
        0 <= i < store::mappings_in(m)->Ok_0.len() && 0 <= j < store::mappings_in(m)->Ok_0.len()
            && (#[trigger] store::mappings_in(m)->Ok_0[i]).target == t && (
        #[trigger] store::mappings_in(m)->Ok_0[j]).target == t ==> i == j
}

/// A target with a connector has just one.
proof fn one_connector(m: Store, t: Target)
    requires
        store::mappings_in(m) is Ok,
        connectors::has_target(store::mappings_in(m)->Ok_0, t),
    ensures
        has_one_connector(m, t),
{
    let table = store::mappings_in(m)->Ok_0;
    decisions::readable_mappings_are_a_table(m);
    assert forall|i: int, j: int|
        0 <= i < table.len() && 0 <= j < table.len() && (#[trigger] table[i]).target == t && (
        #[trigger] table[j]).target == t implies i == j by {
        connectors::port_in_table(table, i);
    }
}

/// What one step of an approval does.
proof fn approval_step(m: Store, step: Step, now: u64)
    requires
        decisions::is_readable(m),
        is_approval_step(step),
        store::after_step(m, step, now) is Ok,
    ensures
        ({
            let next = store::after_step(m, step, now)->Ok_0;
            &&& decisions::is_readable(next)
            &&& next.pending == m.pending
            &&& forall|t: Target| #[trigger]
                store::allowed_in(next)->Ok_0.contains(t) <==> store::allowed_in(m)->Ok_0.contains(
                    t,
                ) || step == Step::ChangeAllowed(TargetChange::Insert, t)
            &&& forall|t: Target|
                connectors::has_target(store::mappings_in(m)->Ok_0, t) || step
                    == Step::EnsureConnector(t) ==> #[trigger] connectors::has_target(
                    store::mappings_in(next)->Ok_0,
                    t,
                )
        }),
{
    let next = store::after_step(m, step, now)->Ok_0;
    let before = store::mappings_in(m)->Ok_0;
    match step {
        Step::EnsureConnector(u) => {
            let granted = connectors::ensured(before, u)->Ok_0;
            let after = connectors::after_ensure(before, u);
            decisions::readable_mappings_are_a_table(m);
            connectors::granted_connector_is_stable(before, u, granted);
            connectors::table_of_fixed(after);
            assert(store::mappings_in(next) == Ok::<Seq<Mapping>, StoreError>(after));
            assert forall|t: Target|
                connectors::has_target(before, t) || step == Step::EnsureConnector(
                    t,
                ) implies #[trigger] connectors::has_target(after, t) by {
                if t == u {
                    let k = choose|k: int| 0 <= k < after.len() && after[k] == granted;
                    assert(after[k].target == u);
                } else {
                    let i = choose|i: int|
                        0 <= i < before.len() && (#[trigger] before[i]).target == t;
                    assert(before.contains(before[i]));
                    connectors::ensure_keeps_other_targets(before, u, before[i]);
                    let k = choose|k: int| 0 <= k < after.len() && after[k] == before[i];
                    assert(after[k].target == t);
                }
            }
            assert(store::allowed_in(next) == store::allowed_in(m));
            assert(store::dismissed_in(next) == store::dismissed_in(m));
        },
        Step::ChangeAllowed(_, u) => {
            decisions::change_is_read_back(m, TargetChange::Insert, u);
            assert(store::mappings_in(next) == store::mappings_in(m));
            assert(store::dismissed_in(next) == store::dismissed_in(m));
        },
        Step::Acknowledge(_) => {
            assert(store::mappings_in(next) == store::mappings_in(m));
            assert(store::allowed_in(next) == store::allowed_in(m));
        },
        Step::RemoveConnector(_) => {},
    }
}

/// Approvals do not get lost, in whatever order their steps are taken: where each step is taken as
/// a whole and succeeds, the session may reach what it could reach before and every target that was
/// approved, and nothing else; the targets for which a connector was asked have just one; and no
/// target that was approved is shown any more.
pub proof fn interleaved_approvals_are_kept(m: Store, steps: Seq<(Step, u64)>)
    requires
        decisions::is_readable(m),
        forall|i: int| 0 <= i < steps.len() ==> is_approval_step((#[trigger] steps[i]).0),
        after_timed_steps(m, steps).1 is Ok,
    ensures
        ({
            let after = after_timed_steps(m, steps).0;
            &&& decisions::is_readable(after)
            &&& after.pending == m.pending
            &&& forall|t: Target| #[trigger]
                store::allowed_in(after)->Ok_0.contains(t) <==> store::allowed_in(m)->Ok_0.contains(
                    t,
                ) || takes_step(steps, Step::ChangeAllowed(TargetChange::Insert, t))
            &&& forall|t: Target|
                connectors::has_target(store::mappings_in(m)->Ok_0, t) || takes_step(
                    steps,
                    Step::EnsureConnector(t),
                ) ==> #[trigger] has_one_connector(after, t)
            &&& forall|t: Target, items: Seq<Pending>, i: int|
                #![trigger store::is_pending_list(after, items), items[i], egress::target_text(t)]
                takes_step(steps, Step::ChangeAllowed(TargetChange::Insert, t))
                    && store::is_pending_list(after, items) && 0 <= i < items.len()
                    ==> items[i].target != egress::target_text(t)
        }),
{
    let after = after_timed_steps(m, steps).0;
    timed_steps_run(m, steps);
    assert forall|t: Target|
        connectors::has_target(store::mappings_in(m)->Ok_0, t) || takes_step(
            steps,
            Step::EnsureConnector(t),
        ) implies #[trigger] has_one_connector(after, t) by {
        assert(connectors::has_target(store::mappings_in(after)->Ok_0, t));
        one_connector(after, t);
    }
    assert forall|t: Target, items: Seq<Pending>, i: int|
        #![trigger store::is_pending_list(after, items), items[i], egress::target_text(t)]
        takes_step(steps, Step::ChangeAllowed(TargetChange::Insert, t)) && store::is_pending_list(
            after,
            items,
        ) && 0 <= i < items.len() implies items[i].target != egress::target_text(t) by {
        approved_target_is_not_shown(after, t, items, i);
    }
}

/// A target that the session may reach is not shown.
pub proof fn approved_target_is_not_shown(m: Store, t: Target, items: Seq<Pending>, i: int)
    requires
        store::is_pending_list(m, items),
        store::allowed_in(m)->Ok_0.contains(t),
        0 <= i < items.len(),
    ensures
        items[i].target != egress::target_text(t),
{
    let events = store::events_in(m)->Ok_0;
    let allowed = target_set::target_texts(store::allowed_in(m)->Ok_0);
    let dismissed = store::dismissed_in(m)->Ok_0;
    let mappings = store::mappings_in(m)->Ok_0;
    assert(allowed.contains(egress::target_text(t)));
    assert(pending::shows_attempt(items[i], events, allowed, dismissed, mappings));
    let k = choose|k: int| #[trigger]
        pending::is_shown(events, k, allowed, dismissed) && items[i] == pending::event_item(
            events[k],
            mappings,
        );
    assert(items[i].target == pending::event_key(events[k]));
}

/// What steps of approvals do.
proof fn timed_steps_run(m: Store, steps: Seq<(Step, u64)>)
    requires
        decisions::is_readable(m),
        forall|i: int| 0 <= i < steps.len() ==> is_approval_step((#[trigger] steps[i]).0),
        after_timed_steps(m, steps).1 is Ok,
    ensures
        ({
            let after = after_timed_steps(m, steps).0;
            &&& decisions::is_readable(after)
            &&& after.pending == m.pending
            &&& forall|t: Target| #[trigger]
                store::allowed_in(after)->Ok_0.contains(t) <==> store::allowed_in(m)->Ok_0.contains(
                    t,
                ) || takes_step(steps, Step::ChangeAllowed(TargetChange::Insert, t))
            &&& forall|t: Target|
                connectors::has_target(store::mappings_in(m)->Ok_0, t) || takes_step(
                    steps,
                    Step::EnsureConnector(t),
                ) ==> #[trigger] connectors::has_target(store::mappings_in(after)->Ok_0, t)
        }),
    decreases steps.len(),
{
    if steps.len() > 0 {
        let rest = steps.drop_first();
        let next = store::after_step(m, steps[0].0, steps[0].1)->Ok_0;
        approval_step(m, steps[0].0, steps[0].1);
        assert forall|i: int| 0 <= i < rest.len() implies is_approval_step(
            (#[trigger] rest[i]).0,
        ) by {
            assert(rest[i] == steps[i + 1]);
        }
        timed_steps_run(next, rest);
        assert forall|step: Step| #[trigger]
            takes_step(steps, step) <==> steps[0].0 == step || takes_step(rest, step) by {
            if takes_step(steps, step) {
                let i = choose|i: int| 0 <= i < steps.len() && (#[trigger] steps[i]).0 == step;
                if i > 0 {
                    assert(rest[i - 1].0 == step);
                }
            }
            if takes_step(rest, step) {
                let i = choose|i: int| 0 <= i < rest.len() && (#[trigger] rest[i]).0 == step;
                assert(steps[i + 1].0 == step);
            }
        }
        let after = after_timed_steps(m, steps).0;
        assert(after == after_timed_steps(next, rest).0);
        assert forall|t: Target|
            connectors::has_target(store::mappings_in(m)->Ok_0, t) || takes_step(
                steps,
                Step::EnsureConnector(t),
            ) implies #[trigger] connectors::has_target(store::mappings_in(after)->Ok_0, t) by {
            if connectors::has_target(store::mappings_in(m)->Ok_0, t) || steps[0].0
                == Step::EnsureConnector(t) {
                assert(connectors::has_target(store::mappings_in(next)->Ok_0, t));
            }
        }
    }
}

/// The state after destinations were approved one after the other, each of them with its time.
pub open spec fn after_approvals(m: Store, calls: Seq<(Seq<char>, u64)>) -> (
    Store,
    Result<(), StoreError>,
)
    decreases calls.len(),
{
    if calls.len() == 0 {
        (m, Ok(()))
    } else {
        match store::decided(m, Decision::Allow, calls[0].0, calls[0].1) {
            (next, Ok(())) => after_approvals(next, calls.drop_first()),
            (next, Err(e)) => (next, Err(e)),
        }
    }
}

/// Whether one of the calls names `t`.
pub open spec fn names_target(calls: Seq<(Seq<char>, u64)>, t: Target) -> bool {
    exists|i: int|
        0 <= i < calls.len() && egress::target_named((#[trigger] calls[i]).0) == Ok::<
            Target,
            EgressError,
        >(t)
}

/// Destinations that were approved one after the other may all be reached, besides what could be
/// reached before, and nothing else may; those that need a connector have just one; and none of
/// them is shown any more.
pub proof fn approvals_add_up(m: Store, calls: Seq<(Seq<char>, u64)>)
    requires
        decisions::is_readable(m),
        after_approvals(m, calls).1 is Ok,
    ensures
        ({
            let after = after_approvals(m, calls).0;
            &&& decisions::is_readable(after)
            &&& after.pending == m.pending
            &&& forall|t: Target| #[trigger]
                store::allowed_in(after)->Ok_0.contains(t) <==> store::allowed_in(m)->Ok_0.contains(
                    t,
                ) || names_target(calls, t)
            &&& forall|t: Target|
                names_target(calls, t) && egress::is_connector_kind(t.kind)
                    ==> #[trigger] has_one_connector(after, t)
            &&& forall|t: Target, items: Seq<Pending>, i: int|
                #![trigger store::is_pending_list(after, items), items[i], egress::target_text(t)]
                names_target(calls, t) && store::is_pending_list(after, items) && 0 <= i
                    < items.len() ==> items[i].target != egress::target_text(t)
        }),
{
    let after = after_approvals(m, calls).0;
    approvals_run(m, calls);
    assert forall|t: Target|
        names_target(calls, t) && egress::is_connector_kind(
            t.kind,
        ) implies #[trigger] has_one_connector(after, t) by {
        assert(connectors::has_target(store::mappings_in(after)->Ok_0, t));
        one_connector(after, t);
    }
    assert forall|t: Target, items: Seq<Pending>, i: int|
        #![trigger store::is_pending_list(after, items), items[i], egress::target_text(t)]
        names_target(calls, t) && store::is_pending_list(after, items) && 0 <= i
            < items.len() implies items[i].target != egress::target_text(t) by {
        approved_target_is_not_shown(after, t, items, i);
    }
}

/// What approvals one after the other do.
proof fn approvals_run(m: Store, calls: Seq<(Seq<char>, u64)>)
    requires
        decisions::is_readable(m),
        after_approvals(m, calls).1 is Ok,
    ensures
        ({
            let after = after_approvals(m, calls).0;
            &&& decisions::is_readable(after)
            &&& after.pending == m.pending
            &&& forall|t: Target| #[trigger]
                store::allowed_in(after)->Ok_0.contains(t) <==> store::allowed_in(m)->Ok_0.contains(
                    t,
                ) || names_target(calls, t)
            &&& forall|t: Target|
                connectors::has_target(store::mappings_in(m)->Ok_0, t) || (names_target(calls, t)
                    && egress::is_connector_kind(t.kind)) ==> #[trigger] connectors::has_target(
                    store::mappings_in(after)->Ok_0,
                    t,
                )
        }),
    decreases calls.len(),
{
    if calls.len() > 0 {
        let (target, now) = calls[0];
        let rest = calls.drop_first();
        let (next, r) = store::decided(m, Decision::Allow, target, now);
        let u = egress::target_named(target)->Ok_0;
        one_approval(m, target, u, now);
        approvals_run(next, rest);
        assert forall|t: Target| #[trigger]
            names_target(calls, t) <==> t == u || names_target(rest, t) by {
            if names_target(calls, t) {
                let i = choose|i: int|
                    0 <= i < calls.len() && egress::target_named((#[trigger] calls[i]).0) == Ok::<
                        Target,
                        EgressError,
                    >(t);
                if i > 0 {
                    assert(rest[i - 1] == calls[i]);
                }
            }
            if names_target(rest, t) {
                let i = choose|i: int|
                    0 <= i < rest.len() && egress::target_named((#[trigger] rest[i]).0) == Ok::<
                        Target,
                        EgressError,
                    >(t);
                assert(calls[i + 1] == rest[i]);
            }
        }
        let after = after_approvals(m, calls).0;
        assert(after == after_approvals(next, rest).0);
        assert forall|t: Target|
            connectors::has_target(store::mappings_in(m)->Ok_0, t) || (names_target(calls, t)
                && egress::is_connector_kind(t.kind)) implies #[trigger] connectors::has_target(
            store::mappings_in(after)->Ok_0,
            t,
        ) by {
            if connectors::has_target(store::mappings_in(m)->Ok_0, t) || t == u {
                assert(connectors::has_target(store::mappings_in(next)->Ok_0, t));
            }
        }
    }
}

/// What one approval does.
proof fn one_approval(m: Store, target: Seq<char>, u: Target, now: u64)
    requires
        decisions::is_readable(m),
        store::decided(m, Decision::Allow, target, now).1 is Ok,
        egress::target_named(target) == Ok::<Target, EgressError>(u),
    ensures
        ({
            let next = store::decided(m, Decision::Allow, target, now).0;
            &&& decisions::is_readable(next)
            &&& next.pending == m.pending
            &&& store::allowed_in(next)->Ok_0 == store::allowed_in(m)->Ok_0.insert(u)
            &&& forall|t: Target|
                connectors::has_target(store::mappings_in(m)->Ok_0, t) || (t == u
                    && egress::is_connector_kind(t.kind)) ==> #[trigger] connectors::has_target(
                    store::mappings_in(next)->Ok_0,
                    t,
                )
        }),
{
    let next = store::decided(m, Decision::Allow, target, now).0;
    if egress::is_connector_kind(u.kind) {
        let steps = store::allow_steps_of(u);
        assert(steps[0] == Step::EnsureConnector(u));
        assert(store::after_step(m, steps[0], now) is Ok);
        approval_step(m, steps[0], now);
        decisions::allowed_target_may_be_reached(m, target, u, now);
        let linked = store::after_connector(m, u)->Ok_0;
        assert(store::mappings_in(next) == store::mappings_in(linked));
    } else {
        decisions::allowed_target_may_be_reached(m, target, u, now);
        assert(store::mappings_in(next) == store::mappings_in(m));
    }
}

} // verus!
