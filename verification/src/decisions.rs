//! What holds of every decision about a destination, and of every session that is set up.
use crate::canonical;
use crate::connectors;
use crate::connectors::Mapping;
use crate::egress;
use crate::egress::{EgressError, Target};
use crate::number;
use crate::pending;
use crate::pending::{Allowed, Event, Line, Log, Pending, PendingError};
use crate::pieces;
use crate::store;
use crate::store::{Decision, Step, Store, StoreError, Stored, TargetChange};
use crate::target_set;
use crate::text;
use vstd::prelude::*;

verus! {

// ---------------------------------------------------------------------------
// Files of targets
// ---------------------------------------------------------------------------

/// A list in order stays in order, and gains a target, where the target is put in its place.
proof fn insertion_exists(s: Seq<Target>, t: Target) -> (r: Seq<Target>)
    requires
        target_set::is_sorted_list(s),
    ensures
        target_set::is_sorted_list(r),
        forall|x: Target| r.contains(x) <==> s.contains(x) || x == t,
    decreases s.len(),
{
    if s.len() == 0 {
        let r = seq![t];
        assert(r[0] == t);
        assert(s =~= Seq::<Target>::empty());
        r
    } else if s[0] == t {
        assert(s.contains(s[0]));
        s
    } else if target_set::target_before(t, s[0]) {
        let r = seq![t] + s;
        assert forall|i: int, j: int| 0 <= i < j < r.len() implies target_set::target_before(
            #[trigger] r[i],
            #[trigger] r[j],
        ) by {
            assert(r[j] == s[j - 1]);
            if i == 0 {
                if j > 1 {
                    assert(target_set::target_before(s[0], s[j - 1]));
                    target_set::target_order(t, s[0], s[j - 1]);
                }
            } else {
                assert(r[i] == s[i - 1]);
            }
        }
        assert forall|x: Target| r.contains(x) <==> s.contains(x) || x == t by {
            assert(r[0] == t);
            if s.contains(x) {
                let k = choose|k: int| 0 <= k < s.len() && s[k] == x;
                assert(r[k + 1] == x);
            }
            if r.contains(x) {
                let k = choose|k: int| 0 <= k < r.len() && r[k] == x;
                if k > 0 {
                    assert(s[k - 1] == x);
                }
            }
        }
        r
    } else {
        target_set::target_order(t, s[0], t);
        let tail = s.drop_first();
        assert forall|i: int, j: int| 0 <= i < j < tail.len() implies target_set::target_before(
            #[trigger] tail[i],
            #[trigger] tail[j],
        ) by {
            assert(tail[i] == s[i + 1] && tail[j] == s[j + 1]);
        }
        let rest = insertion_exists(tail, t);
        let r = seq![s[0]] + rest;
        assert forall|i: int, j: int| 0 <= i < j < r.len() implies target_set::target_before(
            #[trigger] r[i],
            #[trigger] r[j],
        ) by {
            assert(r[j] == rest[j - 1]);
            if i == 0 {
                assert(rest.contains(rest[j - 1]));
                if rest[j - 1] != t {
                    let k = choose|k: int| 0 <= k < tail.len() && tail[k] == rest[j - 1];
                    assert(target_set::target_before(s[0], s[k + 1]));
                }
            } else {
                assert(r[i] == rest[i - 1]);
            }
        }
        assert forall|x: Target| r.contains(x) <==> s.contains(x) || x == t by {
            assert(r[0] == s[0]);
            assert(s.contains(s[0]));
            if s.contains(x) {
                let k = choose|k: int| 0 <= k < s.len() && s[k] == x;
                if k > 0 {
                    assert(tail[k - 1] == x);
                }
            }
            if rest.contains(x) {
                let k = choose|k: int| 0 <= k < rest.len() && rest[k] == x;
                assert(r[k + 1] == x);
            }
            if r.contains(x) {
                let k = choose|k: int| 0 <= k < r.len() && r[k] == x;
                if k > 0 {
                    assert(rest[k - 1] == x);
                    if x != t {
                        let a = choose|a: int| 0 <= a < tail.len() && tail[a] == x;
                        assert(s[a + 1] == x);
                    }
                }
            }
        }
        r
    }
}

/// The targets of every list can be put in order.
pub proof fn target_list_exists(ts: Seq<Target>)
    ensures
        target_set::lists(store::target_list(ts.to_set()), ts.to_set()),
    decreases ts.len(),
{
    if ts.len() == 0 {
        let none = Seq::<Target>::empty();
        assert(none.to_set() =~= ts.to_set());
        assert(target_set::lists(none, ts.to_set()));
    } else {
        let rest = ts.drop_last();
        target_list_exists(rest);
        let s = store::target_list(rest.to_set());
        let r = insertion_exists(s, ts.last());
        assert forall|x: Target| r.to_set().contains(x) <==> ts.to_set().contains(x) by {
            assert(s.to_set().contains(x) <==> rest.to_set().contains(x));
            if ts.contains(x) {
                let k = choose|k: int| 0 <= k < ts.len() && ts[k] == x;
                if k < rest.len() {
                    assert(rest[k] == x);
                }
            }
            if rest.contains(x) {
                let k = choose|k: int| 0 <= k < rest.len() && rest[k] == x;
                assert(ts[k] == x);
            }
            assert(ts[ts.len() - 1] == ts.last());
        }
        assert(r.to_set() =~= ts.to_set());
        assert(target_set::lists(r, ts.to_set()));
    }
}

/// The file that holds a set of canonical targets names those targets and no others.
pub proof fn target_file_holds(ts: Seq<Target>)
    requires
        forall|i: int| 0 <= i < ts.len() ==> canonical::is_canonical(#[trigger] ts[i]),
    ensures
        target_set::target_set_of(store::target_file(ts.to_set())) == Ok::<
            Set<Target>,
            EgressError,
        >(ts.to_set()),
{
    target_list_exists(ts);
    let s = store::target_list(ts.to_set());
    assert forall|i: int| 0 <= i < s.len() implies canonical::is_canonical(#[trigger] s[i]) by {
        assert(s.to_set().contains(s[i]));
        let k = choose|k: int| 0 <= k < ts.len() && ts[k] == s[i];
        assert(canonical::is_canonical(ts[k]));
    }
    target_set::target_file_round_trip(s);
}

/// The set of approved targets after a change is the set before it with the change made.
pub proof fn change_is_read_back(m: Store, change: TargetChange, t: Target)
    requires
        store::allowed_in(m) is Ok,
        canonical::is_canonical(t),
    ensures
        store::after_change(m, change, t) is Ok,
        store::allowed_in(store::after_change(m, change, t)->Ok_0) == Ok::<
            Set<Target>,
            StoreError,
        >(store::changed(store::allowed_in(m)->Ok_0, change, t)),
{
    reveal(target_set::target_set_of);
    let lines = pieces::lines(m.allowed->Some_0);
    let ts = target_set::targets_on_lines(lines)->Ok_0;
    let set = ts.to_set();
    target_set::file_targets_are_canonical(lines, ts);
    match change {
        TargetChange::Insert => {
            let us = ts.push(t);
            assert forall|i: int| 0 <= i < us.len() implies canonical::is_canonical(
                #[trigger] us[i],
            ) by {
                if i < ts.len() {
                    assert(us[i] == ts[i]);
                }
            }
            assert forall|x: Target| us.to_set().contains(x) <==> set.insert(t).contains(x) by {
                if ts.contains(x) {
                    let k = choose|k: int| 0 <= k < ts.len() && ts[k] == x;
                    assert(us[k] == x);
                }
                assert(us[ts.len() as int] == t);
                if us.contains(x) {
                    let k = choose|k: int| 0 <= k < us.len() && us[k] == x;
                    if k < ts.len() {
                        assert(ts[k] == x);
                    }
                }
            }
            assert(us.to_set() =~= set.insert(t));
            target_file_holds(us);
        },
        TargetChange::Remove => {
            let keep = |x: Target| x != t;
            let us = ts.filter(keep);
            assert forall|x: Target| us.contains(x) <==> ts.contains(x) && x != t by {
                if us.contains(x) {
                    let k = choose|k: int| 0 <= k < us.len() && us[k] == x;
                    ts.lemma_filter_pred(keep, k);
                    ts.lemma_filter_contains_rev(keep, x);
                }
                if ts.contains(x) && x != t {
                    let k = choose|k: int| 0 <= k < ts.len() && ts[k] == x;
                    ts.lemma_filter_contains(keep, k);
                }
            }
            assert forall|i: int| 0 <= i < us.len() implies canonical::is_canonical(
                #[trigger] us[i],
            ) by {
                assert(us.contains(us[i]));
                let k = choose|k: int| 0 <= k < ts.len() && ts[k] == us[i];
                assert(canonical::is_canonical(ts[k]));
            }
            assert(us.to_set() =~= set.remove(t));
            target_file_holds(us);
        },
    }
}

// ---------------------------------------------------------------------------
// Decisions
// ---------------------------------------------------------------------------

/// Whether the session can be read: its approved targets, its dismissals and its connectors.
pub open spec fn is_readable(m: Store) -> bool {
    store::allowed_in(m) is Ok && store::dismissed_in(m) is Ok && store::mappings_in(m) is Ok
}

/// Approving a destination succeeds on every session that can be read, unless the destination
/// needs a connector and no port is left for one. Afterwards the session may reach it and what it
/// could reach before, and attempts up to now no longer ask for a decision.
pub proof fn allowed_target_may_be_reached(m: Store, target: Seq<char>, t: Target, now: u64)
    requires
        is_readable(m),
        egress::target_named(target) == Ok::<Target, EgressError>(t),
        egress::is_connector_kind(t.kind) ==> connectors::ensured(
            store::mappings_in(m)->Ok_0,
            t,
        ) is Ok,
    ensures
        ({
            let (after, r) = store::decided(m, Decision::Allow, target, now);
            &&& r is Ok
            &&& store::allowed_in(after) == Ok::<Set<Target>, StoreError>(
                store::allowed_in(m)->Ok_0.insert(t),
            )
            &&& store::dismissed_in(after) == Ok::<Map<Seq<char>, u64>, StoreError>(
                store::dismissed_in(m)->Ok_0.insert(egress::target_text(t), now),
            )
            &&& after.pending == m.pending
            &&& !egress::is_connector_kind(t.kind) ==> after.connectors == m.connectors
            &&& egress::is_connector_kind(t.kind) ==> after.connectors == Stored::Held(
                connectors::after_ensure(store::mappings_in(m)->Ok_0, t),
            )
        }),
{
    canonical::parsed_target_is_canonical(target, t);
    allow_steps_run(m, t, now);
}

/// Approves a target that is in canonical form, once its connector is there.
proof fn insert_and_acknowledge(m: Store, t: Target, now: u64)
    requires
        store::allowed_in(m) is Ok,
        store::dismissed_in(m) is Ok,
        canonical::is_canonical(t),
    ensures
        ({
            let steps = seq![
                Step::ChangeAllowed(TargetChange::Insert, t),
                Step::Acknowledge(egress::target_text(t)),
            ];
            let (after, r) = store::after_steps(m, steps, now);
            &&& r is Ok
            &&& store::allowed_in(after) == Ok::<Set<Target>, StoreError>(
                store::allowed_in(m)->Ok_0.insert(t),
            )
            &&& store::dismissed_in(after) == Ok::<Map<Seq<char>, u64>, StoreError>(
                store::dismissed_in(m)->Ok_0.insert(egress::target_text(t), now),
            )
            &&& after.pending == m.pending
            &&& after.connectors == m.connectors
        }),
{
    let change = Step::ChangeAllowed(TargetChange::Insert, t);
    let ack = Step::Acknowledge(egress::target_text(t));
    change_is_read_back(m, TargetChange::Insert, t);
    two_steps(m, change, ack, now);
}

/// The steps that approve a target that is in canonical form.
proof fn allow_steps_run(m: Store, t: Target, now: u64)
    requires
        is_readable(m),
        canonical::is_canonical(t),
        egress::is_connector_kind(t.kind) ==> connectors::ensured(
            store::mappings_in(m)->Ok_0,
            t,
        ) is Ok,
    ensures
        ({
            let (after, r) = store::after_steps(m, store::allow_steps_of(t), now);
            &&& r is Ok
            &&& store::allowed_in(after) == Ok::<Set<Target>, StoreError>(
                store::allowed_in(m)->Ok_0.insert(t),
            )
            &&& store::dismissed_in(after) == Ok::<Map<Seq<char>, u64>, StoreError>(
                store::dismissed_in(m)->Ok_0.insert(egress::target_text(t), now),
            )
            &&& after.pending == m.pending
            &&& !egress::is_connector_kind(t.kind) ==> after.connectors == m.connectors
            &&& egress::is_connector_kind(t.kind) ==> after.connectors == Stored::Held(
                connectors::after_ensure(store::mappings_in(m)->Ok_0, t),
            )
        }),
{
    let steps = store::allow_steps_of(t);
    if egress::is_connector_kind(t.kind) {
        let m1 = store::after_connector(m, t)->Ok_0;
        insert_and_acknowledge(m1, t, now);
        assert(steps[0] == Step::EnsureConnector(t));
        assert(steps.drop_first() =~= seq![
            Step::ChangeAllowed(TargetChange::Insert, t),
            Step::Acknowledge(egress::target_text(t)),
        ]);
    } else {
        insert_and_acknowledge(m, t, now);
    }
}

/// Two steps, one after the other.
proof fn two_steps(m: Store, first: Step, second: Step, now: u64)
    ensures
        store::after_steps(m, seq![first, second], now) == (match store::after_step(
            m,
            first,
            now,
        ) {
            Err(e) => (m, Err::<(), StoreError>(e)),
            Ok(next) => match store::after_step(next, second, now) {
                Err(e) => (next, Err(e)),
                Ok(last) => (last, Ok(())),
            },
        }),
{
    let steps = seq![first, second];
    reveal_with_fuel(store::after_steps, 3);
    assert(steps.drop_first() =~= seq![second]);
    assert(seq![second].drop_first() =~= Seq::<Step>::empty());
}

/// Rejecting a destination succeeds on every session that can be read. Afterwards the session may
/// no longer reach it, may reach all else that it could reach before, and has no connector for it;
/// attempts up to now no longer ask for a decision.
pub proof fn denied_target_may_not_be_reached(m: Store, target: Seq<char>, t: Target, now: u64)
    requires
        is_readable(m),
        egress::target_named(target) == Ok::<Target, EgressError>(t),
    ensures
        ({
            let (after, r) = store::decided(m, Decision::Deny, target, now);
            &&& r is Ok
            &&& store::allowed_in(after) == Ok::<Set<Target>, StoreError>(
                store::allowed_in(m)->Ok_0.remove(t),
            )
            &&& store::dismissed_in(after) == Ok::<Map<Seq<char>, u64>, StoreError>(
                store::dismissed_in(m)->Ok_0.insert(egress::target_text(t), now),
            )
            &&& after.pending == m.pending
            &&& !egress::is_connector_kind(t.kind) ==> after.connectors == m.connectors
            &&& egress::is_connector_kind(t.kind) ==> store::mappings_in(after) is Ok
                && !connectors::has_target(store::mappings_in(after)->Ok_0, t)
            &&& forall|x: Mapping|
                x.target != t && store::mappings_in(after) is Ok ==> (
                #[trigger] store::mappings_in(after)->Ok_0.contains(x) <==> store::mappings_in(
                    m,
                )->Ok_0.contains(x))
        }),
{
    canonical::parsed_target_is_canonical(target, t);
    deny_steps_run(m, t, now);
}

/// The steps that reject a target that is in canonical form.
proof fn deny_steps_run(m: Store, t: Target, now: u64)
    requires
        is_readable(m),
        canonical::is_canonical(t),
    ensures
        ({
            let (after, r) = store::after_steps(m, store::deny_steps_of(t), now);
            &&& r is Ok
            &&& store::allowed_in(after) == Ok::<Set<Target>, StoreError>(
                store::allowed_in(m)->Ok_0.remove(t),
            )
            &&& store::dismissed_in(after) == Ok::<Map<Seq<char>, u64>, StoreError>(
                store::dismissed_in(m)->Ok_0.insert(egress::target_text(t), now),
            )
            &&& after.pending == m.pending
            &&& !egress::is_connector_kind(t.kind) ==> after.connectors == m.connectors
            &&& egress::is_connector_kind(t.kind) ==> store::mappings_in(after) is Ok
                && !connectors::has_target(store::mappings_in(after)->Ok_0, t)
            &&& forall|x: Mapping|
                x.target != t && store::mappings_in(after) is Ok ==> (
                #[trigger] store::mappings_in(after)->Ok_0.contains(x) <==> store::mappings_in(
                    m,
                )->Ok_0.contains(x))
        }),
{
    let steps = store::deny_steps_of(t);
    change_is_read_back(m, TargetChange::Remove, t);
    let m1 = store::after_change(m, TargetChange::Remove, t)->Ok_0;
    assert(store::mappings_in(m1) == store::mappings_in(m));
    assert(steps[0] == Step::ChangeAllowed(TargetChange::Remove, t));
    if egress::is_connector_kind(t.kind) {
        assert(steps.drop_first() =~= seq![
            Step::RemoveConnector(t),
            Step::Acknowledge(egress::target_text(t)),
        ]);
        remove_and_acknowledge(m1, t, now);
    } else {
        assert(steps.drop_first() =~= seq![Step::Acknowledge(egress::target_text(t))]);
        acknowledge_alone(m1, egress::target_text(t), now);
    }
}

/// One step that dismisses.
proof fn acknowledge_alone(m: Store, key: Seq<char>, now: u64)
    requires
        store::dismissed_in(m) is Ok,
    ensures
        store::after_steps(m, seq![Step::Acknowledge(key)], now) == (
            Store {
                dismissed: Some(
                    store::dismissals_file(store::dismissed_in(m)->Ok_0.insert(key, now)),
                ),
                ..m
            },
            Ok::<(), StoreError>(()),
        ),
{
    reveal_with_fuel(store::after_steps, 2);
    assert(seq![Step::Acknowledge(key)].drop_first() =~= Seq::<Step>::empty());
}

/// The state after the connector of a target was taken away has none for it, and has those of all
/// other targets.
proof fn removal_is_read_back(m: Store, t: Target)
    requires
        store::mappings_in(m) is Ok,
    ensures
        ({
            let after = store::after_removal(m, t)->Ok_0;
            &&& store::after_removal(m, t) is Ok
            &&& store::mappings_in(after) is Ok
            &&& !connectors::has_target(store::mappings_in(after)->Ok_0, t)
            &&& forall|x: Mapping|
                x.target != t ==> (#[trigger] store::mappings_in(after)->Ok_0.contains(x)
                    <==> store::mappings_in(m)->Ok_0.contains(x))
        }),
{
    let s = store::mappings_in(m)->Ok_0;
    let kept = connectors::table_of(connectors::without_target(s, t));
    readable_mappings_are_a_table(m);
    assert forall|x: Mapping| kept.contains(x) <==> s.contains(x) && x.target != t by {
        connectors::removal_forgets_target(s, t, x);
    }
    connectors::removal_forgets_target(s, t, Mapping { target: t, listen_port: 0 });
    connectors::table_of_fixed(kept);
    if kept.len() == s.len() {
        nothing_removed(s, kept, t);
    }
}

/// Takes away the connector of a target and dismisses.
proof fn remove_and_acknowledge(m: Store, t: Target, now: u64)
    requires
        store::mappings_in(m) is Ok,
        store::dismissed_in(m) is Ok,
    ensures
        ({
            let key = egress::target_text(t);
            let (after, r) = store::after_steps(
                m,
                seq![Step::RemoveConnector(t), Step::Acknowledge(key)],
                now,
            );
            &&& r is Ok
            &&& after.allowed == m.allowed
            &&& after.pending == m.pending
            &&& store::dismissed_in(after) == Ok::<Map<Seq<char>, u64>, StoreError>(
                store::dismissed_in(m)->Ok_0.insert(key, now),
            )
            &&& store::mappings_in(after) is Ok
            &&& !connectors::has_target(store::mappings_in(after)->Ok_0, t)
            &&& forall|x: Mapping|
                x.target != t ==> (#[trigger] store::mappings_in(after)->Ok_0.contains(x)
                    <==> store::mappings_in(m)->Ok_0.contains(x))
        }),
{
    let key = egress::target_text(t);
    removal_is_read_back(m, t);
    two_steps(m, Step::RemoveConnector(t), Step::Acknowledge(key), now);
    let m1 = store::after_removal(m, t)->Ok_0;
    let m2 = store::after_acknowledge(m1, key, now)->Ok_0;
    assert(store::mappings_in(m2) == store::mappings_in(m1));
}

/// The connectors of a session are in order, one for each target.
pub proof fn readable_mappings_are_a_table(m: Store)
    requires
        store::mappings_in(m) is Ok,
    ensures
        connectors::is_table(store::mappings_in(m)->Ok_0),
{
    match m.connectors {
        Stored::Held(s) => connectors::table_exists(s),
        _ => {},
    }
}

/// A table from which as many mappings remain as it had has no mapping for the target.
proof fn nothing_removed(s: Seq<Mapping>, kept: Seq<Mapping>, t: Target)
    requires
        connectors::is_table(s),
        connectors::is_table(kept),
        kept.len() == s.len(),
        forall|x: Mapping| kept.contains(x) <==> s.contains(x) && x.target != t,
    ensures
        !connectors::has_target(s, t),
{
    assert(kept.no_duplicates()) by {
        assert forall|i: int, j: int|
            0 <= i < kept.len() && 0 <= j < kept.len() && i != j implies kept[i] != kept[j] by {
            if i < j {
                target_set::target_order(kept[i].target, kept[i].target, kept[i].target);
                assert(target_set::target_before(kept[i].target, kept[j].target));
            } else {
                target_set::target_order(kept[j].target, kept[j].target, kept[j].target);
                assert(target_set::target_before(kept[j].target, kept[i].target));
            }
        }
    }
    assert(s.no_duplicates()) by {
        assert forall|i: int, j: int|
            0 <= i < s.len() && 0 <= j < s.len() && i != j implies s[i] != s[j] by {
            if i < j {
                target_set::target_order(s[i].target, s[i].target, s[i].target);
                assert(target_set::target_before(s[i].target, s[j].target));
            } else {
                target_set::target_order(s[j].target, s[j].target, s[j].target);
                assert(target_set::target_before(s[j].target, s[i].target));
            }
        }
    }
    kept.unique_seq_to_set();
    s.unique_seq_to_set();
    if connectors::has_target(s, t) {
        let i = choose|i: int| 0 <= i < s.len() && (#[trigger] s[i]).target == t;
        assert(s.contains(s[i]));
        assert forall|x: Mapping| kept.to_set().contains(x) implies s.to_set().remove(
            s[i],
        ).contains(x) by {
            assert(kept.contains(x));
        }
        assert(kept.to_set().subset_of(s.to_set().remove(s[i])));
        vstd::seq_lib::seq_to_set_is_finite(s);
        vstd::set_lib::lemma_len_subset(kept.to_set(), s.to_set().remove(s[i]));
    }
}

/// Dismissing a destination succeeds wherever the dismissals can be read, and changes nothing but
/// the time up to which attempts to reach it are dismissed.
pub proof fn dismissal_changes_only_the_dismissals(
    m: Store,
    target: Seq<char>,
    t: Target,
    now: u64,
)
    requires
        store::dismissed_in(m) is Ok,
        egress::target_named(target) == Ok::<Target, EgressError>(t),
    ensures
        store::decided(m, Decision::Dismiss, target, now) == (
            Store {
                dismissed: Some(
                    store::dismissals_file(
                        store::dismissed_in(m)->Ok_0.insert(egress::target_text(t), now),
                    ),
                ),
                ..m
            },
            Ok::<(), StoreError>(()),
        ),
{
    let steps = store::dismiss_steps_of(t);
    reveal_with_fuel(store::after_steps, 2);
    assert(steps.drop_first() =~= Seq::<Step>::empty());
}

/// A decision hides the attempts up to its time, and only those: an attempt asks for a decision
/// again exactly where it came later and its target is not approved.
pub proof fn decision_hides_earlier_attempts(
    e: Event,
    allowed: Set<Seq<char>>,
    dismissed: Map<Seq<char>, u64>,
    now: u64,
)
    ensures
        pending::is_open(e, allowed, dismissed.insert(pending::event_key(e), now)) <==> (
        !allowed.contains(pending::event_key(e)) && now < pending::event_epoch(e)),
{
}

/// A decision about one target leaves the attempts to reach other targets as they are.
pub proof fn decision_leaves_other_attempts(
    e: Event,
    allowed: Set<Target>,
    dismissed: Map<Seq<char>, u64>,
    t: Target,
    now: u64,
)
    requires
        pending::event_key(e) != egress::target_text(t),
    ensures
        pending::is_open(
            e,
            target_set::target_texts(allowed.insert(t)),
            dismissed.insert(egress::target_text(t), now),
        ) == pending::is_open(e, target_set::target_texts(allowed), dismissed),
        pending::is_open(
            e,
            target_set::target_texts(allowed.remove(t)),
            dismissed.insert(egress::target_text(t), now),
        ) == pending::is_open(e, target_set::target_texts(allowed), dismissed),
        pending::is_open(
            e,
            target_set::target_texts(allowed),
            dismissed.insert(egress::target_text(t), now),
        ) == pending::is_open(e, target_set::target_texts(allowed), dismissed),
{
    let f = |t: Target| egress::target_text(t);
    let key = pending::event_key(e);
    let wider = allowed.insert(t);
    let narrower = allowed.remove(t);
    if target_set::target_texts(allowed).contains(key) {
        let u = target_set::target_with_text(allowed, key);
        assert(wider.contains(u) && key == f(u));
        assert(narrower.contains(u) && key == f(u));
    }
    if target_set::target_texts(wider).contains(key) {
        let u = target_set::target_with_text(wider, key);
        assert(allowed.contains(u) && key == f(u));
    }
    if target_set::target_texts(narrower).contains(key) {
        let u = target_set::target_with_text(narrower, key);
        assert(allowed.contains(u) && key == f(u));
    }
}

/// The attempts in the first lines of a log do not depend on the lines that follow them.
proof fn earlier_events(log: Log, longer: Log, n: int)
    requires
        0 <= n <= log.lines.len(),
        log.lines.len() < longer.lines.len(),
        log.complete || n == 0,
        longer.complete,
        forall|i: int| 0 <= i < log.lines.len() ==> longer.lines[i] == #[trigger] log.lines[i],
    ensures
        pending::events_up_to(longer, n) == pending::events_up_to(log, n),
    decreases n,
{
    if n > 0 {
        earlier_events(log, longer, n - 1);
        assert(longer.lines[n - 1] == log.lines[n - 1]);
    }
}

/// A blocked attempt that is added to the log is read back as the last attempt, with its target and
/// its time.
pub proof fn blocked_attempt_is_read_back(log: Log, line: Seq<char>, t: Target, now: u64)
    requires
        log.complete || log.lines.len() == 0,
        pending::events_of(log) is Ok,
        canonical::is_canonical(t),
        text::trim(line).len() > 0,
    ensures
        ({
            let entry = pending::blocked_entry(t, now);
            let longer = Log {
                lines: log.lines.push(Line { line, entry: Some(entry) }),
                complete: true,
            };
            let event = Event { target: t, seen: entry.event_epoch_nanos };
            &&& pending::events_of(longer) == Ok::<Seq<Event>, PendingError>(
                pending::events_of(log)->Ok_0.push(event),
            )
            &&& pending::event_epoch(event) == now
        }),
{
    let entry = pending::blocked_entry(t, now);
    let longer = Log { lines: log.lines.push(Line { line, entry: Some(entry) }), complete: true };
    earlier_events(log, longer, log.lines.len() as int);
    canonical::canonical_host_is_fixed(t.host);
    assert(egress::new_target(t.kind, t.host, t.port) == Ok::<Target, EgressError>(t));
    number::number_round_trip(now as nat);
}

/// The last attempt asks for a decision exactly where its target is not approved and it came after
/// the last decision about it.
pub proof fn last_attempt_asks_for_a_decision(
    events: Seq<Event>,
    e: Event,
    allowed: Set<Seq<char>>,
    dismissed: Map<Seq<char>, u64>,
)
    ensures
        pending::is_shown(events.push(e), events.len() as int, allowed, dismissed) <==> (
        !allowed.contains(pending::event_key(e)) && pending::dismissed_until(
            dismissed,
            pending::event_key(e),
        ) < pending::event_epoch(e)),
{
    let all = events.push(e);
    assert(all[events.len() as int] == e);
    assert(pending::is_latest(all, events.len() as int));
}

// ---------------------------------------------------------------------------
// Sessions that are set up
// ---------------------------------------------------------------------------

/// Setting up a session that is there leaves every file that is there as it is: later user
/// defaults are not added to it.
pub proof fn existing_session_is_not_backfilled(m: Store, user: Option<Seq<char>>)
    requires
        m.allowed is Some,
    ensures
        store::initialized(m, user) is Ok,
        store::initialized(m, user)->Ok_0.allowed == m.allowed,
        m.connectors !is Missing ==> store::initialized(m, user)->Ok_0.connectors == m.connectors,
        m.pending is Some ==> store::initialized(m, user)->Ok_0.pending == m.pending,
        m.dismissed is Some ==> store::initialized(m, user)->Ok_0.dismissed == m.dismissed,
{
}

/// Setting up a session twice is the same as setting it up once, whatever the user defaults have
/// become in the meantime.
pub proof fn setting_up_twice_changes_nothing(
    m: Store,
    user: Option<Seq<char>>,
    later: Option<Seq<char>>,
)
    requires
        store::initialized(m, user) is Ok,
    ensures
        store::initialized(store::initialized(m, user)->Ok_0, later) == store::initialized(m, user),
{
}

/// The default targets are canonical.
proof fn default_targets_are_canonical()
    ensures
        forall|i: int|
            0 <= i < store::default_targets().len() ==> canonical::is_canonical(
                #[trigger] store::default_targets()[i],
            ),
{
    store::built_in_defaults();
    let ds = store::default_targets();
    canonical::parsed_target_is_canonical(store::DEFAULT_ALLOWED_TARGETS[0]@, ds[0]);
    canonical::parsed_target_is_canonical(store::DEFAULT_ALLOWED_TARGETS[1]@, ds[1]);
    canonical::parsed_target_is_canonical(store::DEFAULT_ALLOWED_TARGETS[2]@, ds[2]);
}

/// A new session may reach the built-in destinations and the user defaults, and nothing else; it
/// has no connectors and no attempts, and nothing is dismissed.
pub proof fn new_session_has_the_defaults(m: Store, user: Option<Seq<char>>)
    requires
        m.allowed is None,
        m.connectors is Missing,
        m.pending is None,
        m.dismissed is None,
        store::initial_targets(user) is Ok,
    ensures
        store::initialized(m, user) is Ok,
        store::allowed_in(store::initialized(m, user)->Ok_0) == Ok::<Set<Target>, StoreError>(
            store::initial_targets(user)->Ok_0,
        ),
        forall|i: int|
            0 <= i < store::default_targets().len() ==> store::initial_targets(
                user,
            )->Ok_0.contains(#[trigger] store::default_targets()[i]),
        store::dismissed_in(store::initialized(m, user)->Ok_0) == Ok::<
            Map<Seq<char>, u64>,
            StoreError,
        >(Map::empty()),
        store::mappings_in(store::initialized(m, user)->Ok_0) == Ok::<Seq<Mapping>, StoreError>(
            Seq::empty(),
        ),
        store::events_in(store::initialized(m, user)->Ok_0) == Ok::<Seq<Event>, StoreError>(
            Seq::empty(),
        ),
{
    reveal(target_set::target_set_of);
    let ds = store::default_targets();
    default_targets_are_canonical();
    let us = match user {
        None => Seq::<Target>::empty(),
        Some(contents) => target_set::targets_on_lines(pieces::lines(contents))->Ok_0,
    };
    if user is Some {
        target_set::file_targets_are_canonical(pieces::lines(user->Some_0), us);
    }
    let all = ds + us;
    assert forall|i: int| 0 <= i < all.len() implies canonical::is_canonical(#[trigger] all[i]) by {
        if i < ds.len() {
            assert(all[i] == ds[i]);
        } else {
            assert(all[i] == us[i - ds.len()]);
        }
    }
    let set = store::initial_targets(user)->Ok_0;
    assert forall|x: Target| all.to_set().contains(x) <==> set.contains(x) by {
        if ds.contains(x) {
            let k = choose|k: int| 0 <= k < ds.len() && ds[k] == x;
            assert(all[k] == x);
        }
        if us.contains(x) {
            let k = choose|k: int| 0 <= k < us.len() && us[k] == x;
            assert(all[ds.len() + k] == x);
        }
        if all.contains(x) {
            let k = choose|k: int| 0 <= k < all.len() && all[k] == x;
            if k < ds.len() {
                assert(ds[k] == x);
            } else {
                assert(us[k - ds.len()] == x);
            }
        }
    }
    assert(all.to_set() =~= set);
    target_file_holds(all);
    assert forall|i: int| 0 <= i < ds.len() implies set.contains(#[trigger] ds[i]) by {
        assert(all[i] == ds[i]);
        assert(all.to_set().contains(ds[i]));
    }
    let none = Seq::<Mapping>::empty();
    connectors::table_of_fixed(none);
}

// ---------------------------------------------------------------------------
// What decisions leave as it is
// ---------------------------------------------------------------------------

/// Whether two states agree in all but the approved targets, the connectors and the dismissals.
pub open spec fn same_elsewhere(a: Store, b: Store) -> bool {
    a.session_dir == b.session_dir && a.pending == b.pending && a.meta == b.meta && a.active
        == b.active
}

/// Steps leave all but the approved targets, the connectors and the dismissals as it is.
proof fn steps_leave_the_rest(m: Store, steps: Seq<Step>, now: u64)
    ensures
        same_elsewhere(store::after_steps(m, steps, now).0, m),
    decreases steps.len(),
{
    if steps.len() > 0 {
        match store::after_step(m, steps[0], now) {
            Err(_) => {},
            Ok(next) => steps_leave_the_rest(next, steps.drop_first(), now),
        }
    }
}

/// Whatever is decided about whatever destination, and whether or not it succeeds, the log of
/// blocked attempts, what is known of the session and its record of a process stay as they are. A
/// destination that cannot be read is refused with its error, and nothing changes.
pub proof fn decision_leaves_the_rest(m: Store, decision: Decision, target: Seq<char>, now: u64)
    ensures
        same_elsewhere(store::decided(m, decision, target, now).0, m),
        egress::target_named(target) matches Err(e) ==> store::decided(m, decision, target, now)
            == (m, Err::<(), StoreError>(StoreError::Target(e))),
{
    match egress::target_named(target) {
        Err(_) => {},
        Ok(t) => steps_leave_the_rest(m, store::decision_steps(decision, t), now),
    }
}

/// Approving, rejecting and dismissing a destination are told apart by what the session may reach
/// afterwards: the first adds the destination, the second takes it away, and the third leaves it.
pub proof fn decisions_are_told_apart(m: Store, target: Seq<char>, t: Target, x: Target, now: u64)
    requires
        is_readable(m),
        egress::target_named(target) == Ok::<Target, EgressError>(t),
        store::decided(m, Decision::Allow, target, now).1 is Ok,
    ensures
        store::allowed_in(store::decided(m, Decision::Allow, target, now).0) matches Ok(set) && (
        set.contains(x) <==> x == t || store::allowed_in(m)->Ok_0.contains(x)),
        store::allowed_in(store::decided(m, Decision::Deny, target, now).0) matches Ok(set) && (
        set.contains(x) <==> x != t && store::allowed_in(m)->Ok_0.contains(x)),
        store::decided(m, Decision::Dismiss, target, now).0.allowed == m.allowed,
        store::decided(m, Decision::Dismiss, target, now).0.connectors == m.connectors,
{
    if egress::is_connector_kind(t.kind) {
        let steps = store::allow_steps_of(t);
        assert(steps[0] == Step::EnsureConnector(t));
        assert(store::after_step(m, steps[0], now) is Ok);
    }
    allowed_target_may_be_reached(m, target, t, now);
    denied_target_may_not_be_reached(m, target, t, now);
    dismissal_changes_only_the_dismissals(m, target, t, now);
}

// ---------------------------------------------------------------------------
// What is shown
// ---------------------------------------------------------------------------

/// Whether an item tells of an attempt that asks for a decision: the last one for its destination,
/// which may not be reached, and later than what was dismissed.
pub open spec fn tells_of(
    item: Pending,
    events: Seq<Event>,
    k: int,
    allowed: Set<Target>,
    dismissed: Map<Seq<char>, u64>,
) -> bool {
    let t = Target { kind: item.kind, host: item.host, port: item.port };
    &&& 0 <= k < events.len()
    &&& events[k].target == t
    &&& item.target == egress::target_text(t)
    &&& item.last_seen_epoch_nanos == events[k].seen
    &&& number::parse_up_to(events[k].seen, u64::MAX as nat) == Some(item.epoch as nat)
    &&& item.epoch > 0
    &&& forall|j: int|
        k < j < events.len() ==> egress::target_text((#[trigger] events[j]).target) != item.target
    &&& !allowed.contains(t)
    &&& dismissed.contains_key(item.target) ==> dismissed[item.target] < item.epoch
}

/// Every blocked destination that is shown asks for a decision: it may not be reached, and its last
/// attempt came after the last decision about it.
pub proof fn shown_destination_asks_for_a_decision(m: Store, items: Seq<Pending>, i: int)
    requires
        store::is_pending_list(m, items),
        0 <= i < items.len(),
    ensures
        exists|k: int|
            tells_of(
                items[i],
                store::events_in(m)->Ok_0,
                k,
                store::allowed_in(m)->Ok_0,
                store::dismissed_in(m)->Ok_0,
            ),
{
    let events = store::events_in(m)->Ok_0;
    let set = store::allowed_in(m)->Ok_0;
    let allowed = target_set::target_texts(set);
    let dismissed = store::dismissed_in(m)->Ok_0;
    let mappings = store::mappings_in(m)->Ok_0;
    assert(pending::shows_attempt(items[i], events, allowed, dismissed, mappings));
    let k = choose|k: int| #[trigger]
        pending::is_shown(events, k, allowed, dismissed) && items[i] == pending::event_item(
            events[k],
            mappings,
        );
    let t = Target { kind: items[i].kind, host: items[i].host, port: items[i].port };
    assert(events[k].target =~= t);
    if set.contains(t) {
        assert(allowed.contains(egress::target_text(t)));
    }
    assert forall|j: int| k < j < events.len() implies egress::target_text(
        (#[trigger] events[j]).target,
    ) != items[i].target by {
        assert(pending::event_key(events[j]) != pending::event_key(events[k]));
    }
    assert(tells_of(items[i], events, k, set, dismissed));
}

/// Every attempt that asks for a decision is shown.
pub proof fn open_attempt_is_shown(m: Store, items: Seq<Pending>, k: int)
    requires
        store::is_pending_list(m, items),
        0 <= k < store::events_in(m)->Ok_0.len(),
        ({
            let events = store::events_in(m)->Ok_0;
            let key = egress::target_text(events[k].target);
            let epoch = number::parse_up_to(events[k].seen, u64::MAX as nat);
            &&& forall|j: int|
                k < j < events.len() ==> egress::target_text((#[trigger] events[j]).target) != key
            &&& !target_set::target_texts(store::allowed_in(m)->Ok_0).contains(key)
            &&& epoch is Some && epoch->Some_0 > 0
            &&& store::dismissed_in(m)->Ok_0.contains_key(key) ==> store::dismissed_in(
                m,
            )->Ok_0[key] < epoch->Some_0
        }),
    ensures
        exists|i: int|
            0 <= i < items.len() && (#[trigger] items[i]).target == egress::target_text(
                store::events_in(m)->Ok_0[k].target,
            ) && items[i].last_seen_epoch_nanos == store::events_in(m)->Ok_0[k].seen,
{
    let events = store::events_in(m)->Ok_0;
    let allowed = target_set::target_texts(store::allowed_in(m)->Ok_0);
    let dismissed = store::dismissed_in(m)->Ok_0;
    let mappings = store::mappings_in(m)->Ok_0;
    assert forall|j: int| k < j < events.len() implies pending::event_key(#[trigger] events[j])
        != pending::event_key(events[k]) by {}
    assert(pending::is_shown(events, k, allowed, dismissed));
    let item = pending::event_item(events[k], mappings);
    assert(items.contains(item));
    let i = choose|i: int| 0 <= i < items.len() && items[i] == item;
    assert(items[i].target == egress::target_text(events[k].target));
}

/// The approved destinations are shown in order, each of them once: one item for each target that
/// may be reached, with its kind, host and port and the address of its connector, if it has one.
pub proof fn approved_destinations_are_shown(m: Store, items: Seq<Allowed>, t: Target, i: int)
    requires
        store::is_allowed_list(m, items),
        0 <= i < items.len(),
    ensures
        store::allowed_in(m)->Ok_0.contains(t) <==> exists|j: int|
            0 <= j < items.len() && (#[trigger] items[j]).kind == t.kind && items[j].host == t.host
                && items[j].port == t.port,
        forall|j: int|
            i < j < items.len() ==> target_set::target_before(
                Target { kind: items[i].kind, host: items[i].host, port: items[i].port },
                Target {
                    kind: (#[trigger] items[j]).kind,
                    host: items[j].host,
                    port: items[j].port,
                },
            ),
        items[i].target == egress::target_text(
            Target { kind: items[i].kind, host: items[i].host, port: items[i].port },
        ),
        items[i].connector_endpoint == connectors::endpoint_named(
            store::mappings_in(m)->Ok_0,
            items[i].target,
        ),
{
    let set = store::allowed_in(m)->Ok_0;
    let ts = store::item_targets(items);
    assert(ts.to_set() == set);
    assert forall|j: int| i < j < items.len() implies target_set::target_before(
        Target { kind: items[i].kind, host: items[i].host, port: items[i].port },
        Target { kind: (#[trigger] items[j]).kind, host: items[j].host, port: items[j].port },
    ) by {
        assert(target_set::target_before(ts[i], ts[j]));
    }
    if set.contains(t) {
        assert(ts.to_set().contains(t));
        let j = choose|j: int| 0 <= j < ts.len() && ts[j] == t;
        assert(store::item_target(items[j]) == t);
    }
    if exists|j: int|
        0 <= j < items.len() && (#[trigger] items[j]).kind == t.kind && items[j].host == t.host
            && items[j].port == t.port {
        let j = choose|j: int|
            0 <= j < items.len() && (#[trigger] items[j]).kind == t.kind && items[j].host == t.host
                && items[j].port == t.port;
        assert(ts[j] =~= t);
        assert(ts.to_set().contains(ts[j]));
    }
    assert(items[i] == pending::allowed_item(
        store::item_target(items[i]),
        connectors::endpoint_named(
            store::mappings_in(m)->Ok_0,
            egress::target_text(store::item_target(items[i])),
        ),
    ));
}

// ---------------------------------------------------------------------------
// The log
// ---------------------------------------------------------------------------

/// A blank line of the log is skipped, an entry is an attempt at its time, and a line that holds no
/// entry is refused with its number, unless it is the last and was not written to the end. An entry
/// that names no target is refused with the error of the target.
pub proof fn log_is_read_line_by_line(log: Log, n: int)
    requires
        0 <= n < log.lines.len(),
        n < usize::MAX,
        pending::events_up_to(log, n) is Ok,
    ensures
        ({
            let earlier = pending::events_up_to(log, n)->Ok_0;
            let line = log.lines[n];
            let next = pending::events_up_to(log, n + 1);
            &&& text::trim(line.line).len() == 0 ==> next == Ok::<Seq<Event>, PendingError>(earlier)
            &&& text::trim(line.line).len() > 0 && line.entry is None && (log.complete || n + 1
                < log.lines.len()) ==> next == Err::<Seq<Event>, PendingError>(
                PendingError::Malformed((n + 1) as usize),
            )
            &&& text::trim(line.line).len() > 0 && line.entry is None && !log.complete && n + 1
                == log.lines.len() ==> next == Ok::<Seq<Event>, PendingError>(earlier)
            &&& text::trim(line.line).len() > 0 && line.entry is Some && egress::new_target(
                line.entry->Some_0.kind,
                line.entry->Some_0.host,
                line.entry->Some_0.port,
            ) is Err ==> next == Err::<Seq<Event>, PendingError>(
                PendingError::Target(
                    egress::new_target(
                        line.entry->Some_0.kind,
                        line.entry->Some_0.host,
                        line.entry->Some_0.port,
                    )->Err_0,
                ),
            )
            &&& forall|t: Target, now: u64|
                #![trigger pending::blocked_entry(t, now)]
                text::trim(line.line).len() > 0 && canonical::is_canonical(t) && line.entry == Some(
                    pending::blocked_entry(t, now),
                ) ==> next == Ok::<Seq<Event>, PendingError>(
                    earlier.push((Event { target: t, seen: number::decimal(now as nat) })),
                )
        }),
{
    let line = log.lines[n];
    let next = pending::events_up_to(log, n + 1);
    let earlier = pending::events_up_to(log, n)->Ok_0;
    assert forall|t: Target, now: u64|
        #![trigger pending::blocked_entry(t, now)]
        text::trim(line.line).len() > 0 && canonical::is_canonical(t) && line.entry == Some(
            pending::blocked_entry(t, now),
        ) implies next == Ok::<Seq<Event>, PendingError>(
        earlier.push((Event { target: t, seen: number::decimal(now as nat) })),
    ) by {
        canonical::canonical_host_is_fixed(t.host);
        assert(egress::new_target(t.kind, t.host, t.port) == Ok::<Target, EgressError>(t));
    }
}

// ---------------------------------------------------------------------------
// New sessions
// ---------------------------------------------------------------------------

/// A new session may reach the three hosts of the assistant's service over `https` at port 443, and
/// what the user defaults name; nothing else.
pub proof fn new_session_reaches_the_service(user: Option<Seq<char>>, t: Target)
    ensures
        user is None ==> store::initial_targets(user) is Ok,
        user matches Some(contents) ==> (store::initial_targets(user) is Ok
            <==> target_set::target_set_of(contents) is Ok),
        store::initial_targets(user) matches Ok(set) ==> (set.contains(t) <==> {
            ||| t.kind == egress::EgressKind::Https && t.port == 443 && (t.host
                == "api.github.com"@ || t.host == "api.business.githubcopilot.com"@ || t.host
                == "telemetry.business.githubcopilot.com"@)
            ||| user is Some && target_set::target_set_of(user->Some_0)->Ok_0.contains(t)
        }),
{
    let ds = store::default_targets();
    assert(ds[0] == store::https_target("api.github.com"@));
    assert(ds[1] == store::https_target("api.business.githubcopilot.com"@));
    assert(ds[2] == store::https_target("telemetry.business.githubcopilot.com"@));
    assert(ds.to_set().contains(t) <==> (t == ds[0] || t == ds[1] || t == ds[2])) by {
        if ds.contains(t) {
            let i = choose|i: int| 0 <= i < ds.len() && ds[i] == t;
        }
    }
    if t.kind == egress::EgressKind::Https && t.port == 443 {
        assert(t =~= store::https_target(t.host));
    }
}

/// Setting up a session keeps what is known of it and its record of a process, and it makes the
/// files that are missing: no connectors, no attempts and no dismissals.
pub proof fn setting_up_makes_what_is_missing(m: Store, user: Option<Seq<char>>)
    requires
        store::initialized(m, user) is Ok,
    ensures
        ({
            let after = store::initialized(m, user)->Ok_0;
            &&& after.session_dir == m.session_dir && after.meta == m.meta && after.active
                == m.active
            &&& after.allowed is Some && after.pending is Some && after.dismissed is Some
            &&& after.connectors !is Missing
            &&& m.connectors is Missing ==> store::mappings_in(after) == Ok::<
                Seq<Mapping>,
                StoreError,
            >(Seq::empty())
            &&& m.pending is None ==> store::events_in(after) == Ok::<Seq<Event>, StoreError>(
                Seq::empty(),
            )
            &&& m.dismissed is None ==> store::dismissed_in(after) == Ok::<
                Map<Seq<char>, u64>,
                StoreError,
            >(Map::empty())
        }),
{
    let none = Seq::<Mapping>::empty();
    connectors::table_of_fixed(none);
}

/// A new session is not set up where the user defaults cannot be read; one that is there is.
pub proof fn unreadable_defaults_stop_a_new_session(m: Store, contents: Seq<char>)
    requires
        target_set::target_set_of(contents) is Err,
    ensures
        m.allowed is None ==> store::initialized(m, Some(contents)) == Err::<Store, StoreError>(
            StoreError::Target(target_set::target_set_of(contents)->Err_0),
        ),
        m.allowed is Some ==> store::initialized(m, Some(contents)) is Ok,
{
}

// ---------------------------------------------------------------------------
// Single steps
// ---------------------------------------------------------------------------

/// Taking away the connector of a target leaves none for it and those of all other targets. There is
/// something to take away just where the target has a connector; where it has none nothing changes.
pub proof fn removed_connector_is_gone(m: Store, t: Target, x: Mapping)
    requires
        store::mappings_in(m) is Ok,
    ensures
        store::after_removal(m, t) is Ok,
        store::has_connector(m, t) <==> connectors::has_target(store::mappings_in(m)->Ok_0, t),
        !connectors::has_target(store::mappings_in(m)->Ok_0, t) ==> store::after_removal(m, t)
            == Ok::<Store, StoreError>(m),
        ({
            let after = store::after_removal(m, t)->Ok_0;
            &&& store::mappings_in(after) is Ok
            &&& !connectors::has_target(store::mappings_in(after)->Ok_0, t)
            &&& x.target != t ==> (store::mappings_in(after)->Ok_0.contains(x)
                <==> store::mappings_in(m)->Ok_0.contains(x))
            &&& after.allowed == m.allowed && after.dismissed == m.dismissed
            &&& same_elsewhere(after, m)
        }),
{
    removal_is_read_back(m, t);
    readable_mappings_are_a_table(m);
    let s = store::mappings_in(m)->Ok_0;
    let kept = connectors::table_of(connectors::without_target(s, t));
    if connectors::has_target(s, t) {
        assert forall|x: Mapping| kept.contains(x) <==> s.contains(x) && x.target != t by {
            connectors::removal_forgets_target(s, t, x);
        }
        connectors::removal_forgets_target(s, t, Mapping { target: t, listen_port: 0 });
        if kept.len() == s.len() {
            nothing_removed(s, kept, t);
        }
    } else {
        let keep = |m: Mapping| m.target != t;
        assert forall|i: int| 0 <= i < s.len() implies keep(#[trigger] s[i]) by {}
        all_are_kept(s, keep);
        connectors::table_of_fixed(s);
    }
}

/// A filter that lets everything through changes nothing.
proof fn all_are_kept(s: Seq<Mapping>, keep: spec_fn(Mapping) -> bool)
    requires
        forall|i: int| 0 <= i < s.len() ==> keep(#[trigger] s[i]),
    ensures
        s.filter(keep) == s,
    decreases s.len(),
{
    reveal(Seq::filter);
    if s.len() > 0 {
        let front = s.drop_last();
        assert forall|i: int| 0 <= i < front.len() implies keep(#[trigger] front[i]) by {
            assert(front[i] == s[i]);
        }
        all_are_kept(front, keep);
        assert(s[s.len() - 1] == s.last());
        assert(front.push(s.last()) =~= s);
    } else {
        assert(s.filter(keep) =~= s);
    }
}

/// Dismissing the attempts to reach a target records the time under its text and leaves what is
/// recorded of all others.
pub proof fn dismissal_is_recorded(m: Store, key: Seq<char>, other: Seq<char>, now: u64)
    requires
        store::dismissed_in(m) is Ok,
    ensures
        store::after_acknowledge(m, key, now) is Ok,
        ({
            let before = store::dismissed_in(m)->Ok_0;
            let after = store::after_acknowledge(m, key, now)->Ok_0;
            &&& store::dismissed_in(after) matches Ok(map) && map.contains_key(key) && map[key]
                == now && (other != key ==> (map.contains_key(other) <==> before.contains_key(
                other,
            )) && (before.contains_key(other) ==> map[other] == before[other]))
            &&& after.allowed == m.allowed && after.connectors == m.connectors
            &&& same_elsewhere(after, m)
        }),
{
}

} // verus!
