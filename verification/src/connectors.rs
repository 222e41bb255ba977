//! Broker-managed connector ports for destinations that do not go through the web proxy.
use crate::egress;
use crate::egress::{EgressError, EgressTarget, Target, BROKER_INTERNAL_HOST};
use crate::number;
use crate::order;
use crate::order::Ordered;
use crate::target_set;
use crate::text;
use vstd::prelude::*;
use vstd::string::*;

verus! {

broadcast use vstd::string::group_string_axioms;

/// The lowest port that a connector listens on.
pub const CONNECTOR_PORT_START: u16 = 46000;

/// The highest port that a connector listens on.
pub const CONNECTOR_PORT_END: u16 = 55999;

/// What a [`ConnectorMapping`] denotes.
#[verifier::ext_equal]
pub struct Mapping {
    pub target: Target,
    pub listen_port: u16,
}

/// The port on which the broker accepts connections for a target.
#[derive(Debug, PartialEq, Eq)]
pub struct ConnectorMapping {
    pub target: EgressTarget,
    pub listen_port: u16,
}

impl View for ConnectorMapping {
    type V = Mapping;

    open spec fn view(&self) -> Mapping {
        Mapping { target: self.target@, listen_port: self.listen_port }
    }
}

impl Clone for ConnectorMapping {
    fn clone(&self) -> (r: Self)
        ensures
            r@ == self@,
    {
        ConnectorMapping { target: self.target.clone(), listen_port: self.listen_port }
    }
}

/// The address of a connector inside the session network.
pub open spec fn endpoint_text(listen_port: u16) -> Seq<char> {
    BROKER_INTERNAL_HOST@ + ":"@ + number::decimal(listen_port as nat)
}

/// Writes the address of a connector.
pub fn connector_endpoint(listen_port: u16) -> (r: String)
    ensures
        r@ == endpoint_text(listen_port),
{
    let mut s = BROKER_INTERNAL_HOST.to_string();
    s.append(":");
    s.append(number::decimal_of(listen_port as u64).as_str());
    s
}

impl ConnectorMapping {
    /// The address of the connector inside the session network.
    pub fn endpoint(&self) -> (r: String)
        ensures
            r@ == endpoint_text(self@.listen_port),
    {
        connector_endpoint(self.listen_port)
    }
}

// ---------------------------------------------------------------------------
// Tables
// ---------------------------------------------------------------------------

/// What the mappings of a list denote.
pub open spec fn mappings_of(v: Seq<ConnectorMapping>) -> Seq<Mapping> {
    Seq::new(v.len(), |i: int| v[i]@)
}

/// Copies a list of mappings.
pub fn clone_mappings(v: &Vec<ConnectorMapping>) -> (r: Vec<ConnectorMapping>)
    ensures
        mappings_of(r@) == mappings_of(v@),
{
    let mut r: Vec<ConnectorMapping> = Vec::new();
    let mut i: usize = 0;
    while i < v.len()
        invariant
            i <= v.len(),
            r@.len() == i,
            forall|k: int| 0 <= k < i ==> (#[trigger] r@[k])@ == v@[k]@,
        decreases v.len() - i,
    {
        r.push(v[i].clone());
        i = i + 1;
    }
    assert(mappings_of(r@) =~= mappings_of(v@));
    r
}

/// The order of mappings: by target, then by port.
pub open spec fn mapping_before(a: Mapping, b: Mapping) -> bool {
    if a.target != b.target {
        target_set::target_before(a.target, b.target)
    } else {
        a.listen_port < b.listen_port
    }
}

proof fn mapping_order(a: Mapping, b: Mapping, c: Mapping)
    ensures
        !mapping_before(a, a),
        mapping_before(a, b) && mapping_before(b, c) ==> mapping_before(a, c),
        a == b || mapping_before(a, b) || mapping_before(b, a),
        mapping_before(a, b) ==> !mapping_before(b, a),
{
    target_set::target_order(a.target, b.target, c.target);
    target_set::target_order(b.target, c.target, b.target);
    if a.target == b.target && a.listen_port == b.listen_port {
        assert(a =~= b);
    }
}

impl Ordered for ConnectorMapping {
    open spec fn before(&self, other: &Self) -> bool {
        mapping_before(self@, other@)
    }

    proof fn before_irreflexive(a: &Self) {
        mapping_order(a@, a@, a@);
    }

    proof fn before_transitive(a: &Self, b: &Self, c: &Self) {
        mapping_order(a@, b@, c@);
    }

    proof fn before_splits(a: &Self, b: &Self, c: &Self) {
        mapping_order(a@, b@, c@);
        mapping_order(b@, c@, a@);
        mapping_order(b@, a@, c@);
    }

    fn is_before(&self, other: &Self) -> (r: bool) {
        if !self.target.same(&other.target) {
            self.target.is_before(&other.target)
        } else {
            self.listen_port < other.listen_port
        }
    }
}

/// Whether `s` is in order of targets, with one mapping for each.
pub open spec fn is_table(s: Seq<Mapping>) -> bool {
    forall|i: int, j: int|
        0 <= i < j < s.len() ==> target_set::target_before(
            (#[trigger] s[i]).target,
            (#[trigger] s[j]).target,
        )
}

/// Whether some mapping of `s` is for `t`.
pub open spec fn has_target(s: Seq<Mapping>, t: Target) -> bool {
    exists|i: int| 0 <= i < s.len() && (#[trigger] s[i]).target == t
}

/// Whether some mapping of `s` uses `port`.
pub open spec fn uses_port(s: Seq<Mapping>, port: u16) -> bool {
    exists|i: int| 0 <= i < s.len() && (#[trigger] s[i]).listen_port == port
}

/// Whether `table` holds, for each target that `from` has a mapping for, the mapping of `from`
/// with the lowest port, in order of targets.
pub open spec fn tabulates(table: Seq<Mapping>, from: Seq<Mapping>) -> bool {
    &&& is_table(table)
    &&& forall|i: int| 0 <= i < table.len() ==> from.contains(#[trigger] table[i])
    &&& forall|i: int, k: int|
        0 <= i < table.len() && 0 <= k < from.len() && (#[trigger] table[i]).target == (
        #[trigger] from[k]).target ==> table[i].listen_port <= from[k].listen_port
    &&& forall|k: int| 0 <= k < from.len() ==> has_target(table, (#[trigger] from[k]).target)
}

/// The table of `from`.
pub open spec fn table_of(from: Seq<Mapping>) -> Seq<Mapping> {
    choose|table: Seq<Mapping>| tabulates(table, from)
}

/// A list of mappings has one table.
pub proof fn table_is_unique(a: Seq<Mapping>, b: Seq<Mapping>, from: Seq<Mapping>)
    requires
        tabulates(a, from),
        tabulates(b, from),
    ensures
        a == b,
{
    let lt = |x: Mapping, y: Mapping| target_set::target_before(x.target, y.target);
    assert forall|x: Mapping, y: Mapping| #[trigger] lt(x, y) implies !lt(y, x) by {
        target_set::target_order(x.target, y.target, x.target);
    }
    assert forall|i: int, j: int|
        #![trigger a[i], a[j]]
        0 <= i < j < a.len() implies lt(a[i], a[j]) by {}
    assert forall|i: int, j: int|
        #![trigger b[i], b[j]]
        0 <= i < j < b.len() implies lt(b[i], b[j]) by {}
    assert forall|x: Mapping| a.contains(x) <==> b.contains(x) by {
        if a.contains(x) {
            table_covers(a, b, from, x);
        }
        if b.contains(x) {
            table_covers(b, a, from, x);
        }
    }
    order::sorted_list_is_unique(a, b, lt);
}

proof fn table_covers(a: Seq<Mapping>, b: Seq<Mapping>, from: Seq<Mapping>, x: Mapping)
    requires
        tabulates(a, from),
        tabulates(b, from),
        a.contains(x),
    ensures
        b.contains(x),
{
    let i = choose|i: int| 0 <= i < a.len() && a[i] == x;
    assert(from.contains(a[i]));
    let k = choose|k: int| 0 <= k < from.len() && from[k] == a[i];
    assert(has_target(b, from[k].target));
    let j = choose|j: int| 0 <= j < b.len() && (#[trigger] b[j]).target == from[k].target;
    assert(from.contains(b[j]));
    let m = choose|m: int| 0 <= m < from.len() && from[m] == b[j];
    assert(a[i].listen_port <= from[m].listen_port);
    assert(b[j].listen_port <= from[k].listen_port);
    assert(b[j] =~= x);
}

/// Every list of mappings has a table.
pub proof fn table_exists(from: Seq<Mapping>)
    ensures
        tabulates(table_of(from), from),
    decreases from.len(),
{
    if from.len() == 0 {
        assert(tabulates(Seq::<Mapping>::empty(), from));
    } else {
        let m = from.last();
        let rest = from.drop_last();
        table_exists(rest);
        let t = table_of(rest);
        assert(from[from.len() - 1] == m);
        if has_target(t, m.target) {
            let i = choose|i: int| 0 <= i < t.len() && (#[trigger] t[i]).target == m.target;
            let u = if m.listen_port < t[i].listen_port {
                t.update(i, m)
            } else {
                t
            };
            assert forall|j: int| 0 <= j < u.len() implies from.contains(#[trigger] u[j]) by {
                if u[j] == m {
                    assert(from[from.len() - 1] == m);
                } else {
                    assert(u[j] == t[j]);
                    assert(rest.contains(t[j]));
                    let k = choose|k: int| 0 <= k < rest.len() && rest[k] == t[j];
                    assert(from[k] == u[j]);
                }
            }
            assert forall|j: int| 0 <= j < u.len() implies (#[trigger] u[j]).target == t[j].target by {}
            assert forall|j: int, k: int|
                0 <= j < u.len() && 0 <= k < from.len() && (#[trigger] u[j]).target == (
                #[trigger] from[k]).target implies u[j].listen_port <= from[k].listen_port by {
                if k < rest.len() {
                    assert(from[k] == rest[k]);
                    assert(t[j].listen_port <= rest[k].listen_port);
                } else if j != i {
                    if j < i {
                        assert(target_set::target_before(t[j].target, t[i].target));
                    } else {
                        assert(target_set::target_before(t[i].target, t[j].target));
                    }
                    target_set::target_order(m.target, m.target, m.target);
                }
            }
            assert forall|k: int| 0 <= k < from.len() implies has_target(
                u,
                (#[trigger] from[k]).target,
            ) by {
                if k < rest.len() {
                    assert(from[k] == rest[k]);
                    let j = choose|j: int|
                        0 <= j < t.len() && (#[trigger] t[j]).target == rest[k].target;
                    assert(u[j].target == t[j].target);
                } else {
                    assert(u[i].target == t[i].target);
                }
            }
            assert forall|a: int, b: int|
                0 <= a < b < u.len() implies target_set::target_before(
                (#[trigger] u[a]).target,
                (#[trigger] u[b]).target,
            ) by {
                assert(target_set::target_before(t[a].target, t[b].target));
            }
            assert(tabulates(u, from));
        } else {
            insert_into_table(t, m);
            let p = insert_place(t, m.target);
            let u = t.insert(p, m);
            assert forall|j: int| 0 <= j < u.len() implies from.contains(#[trigger] u[j]) by {
                if j == p {
                    assert(u[j] == m);
                } else {
                    let q = if j < p {
                        j
                    } else {
                        j - 1
                    };
                    assert(u[j] == t[q]);
                    assert(rest.contains(t[q]));
                    let k = choose|k: int| 0 <= k < rest.len() && rest[k] == t[q];
                    assert(from[k] == u[j]);
                }
            }
            assert forall|j: int, k: int|
                0 <= j < u.len() && 0 <= k < from.len() && (#[trigger] u[j]).target == (
                #[trigger] from[k]).target implies u[j].listen_port <= from[k].listen_port by {
                let q = if j < p {
                    j
                } else {
                    j - 1
                };
                if k < rest.len() {
                    assert(from[k] == rest[k]);
                    if j == p {
                        assert(has_target(t, rest[k].target));
                    } else {
                        assert(u[j] == t[q]);
                        assert(t[q].listen_port <= rest[k].listen_port);
                    }
                } else if j != p {
                    assert(u[j] == t[q]);
                    assert(t[q].target == m.target);
                }
            }
            assert forall|k: int| 0 <= k < from.len() implies has_target(
                u,
                (#[trigger] from[k]).target,
            ) by {
                if k < rest.len() {
                    assert(from[k] == rest[k]);
                    assert(has_target(t, rest[k].target));
                    let j = choose|j: int|
                        0 <= j < t.len() && (#[trigger] t[j]).target == rest[k].target;
                    if j < p {
                        assert(u[j] == t[j]);
                    } else {
                        assert(u[j + 1] == t[j]);
                    }
                } else {
                    assert(u[p] == m);
                }
            }
            assert(tabulates(u, from));
        }
    }
}

/// Where a mapping for `t` belongs in a table without one.
spec fn insert_place(s: Seq<Mapping>, t: Target) -> int
    decreases s.len(),
{
    if s.len() == 0 || target_set::target_before(s.last().target, t) {
        s.len() as int
    } else {
        insert_place(s.drop_last(), t)
    }
}

proof fn insert_place_splits(s: Seq<Mapping>, t: Target)
    requires
        is_table(s),
        !has_target(s, t),
    ensures
        0 <= insert_place(s, t) <= s.len(),
        forall|i: int|
            0 <= i < insert_place(s, t) ==> target_set::target_before((#[trigger] s[i]).target, t),
        forall|i: int|
            insert_place(s, t) <= i < s.len() ==> target_set::target_before(
                t,
                (#[trigger] s[i]).target,
            ),
    decreases s.len(),
{
    if s.len() > 0 {
        let last = s[s.len() - 1];
        assert(last.target != t);
        if target_set::target_before(last.target, t) {
            assert forall|i: int| 0 <= i < s.len() implies target_set::target_before(
                (#[trigger] s[i]).target,
                t,
            ) by {
                if i < s.len() - 1 {
                    assert(target_set::target_before(s[i].target, s[s.len() - 1].target));
                    target_set::target_order(s[i].target, last.target, t);
                }
            }
        } else {
            let r = s.drop_last();
            assert(is_table(r));
            assert(!has_target(r, t)) by {
                if has_target(r, t) {
                    let i = choose|i: int| 0 <= i < r.len() && (#[trigger] r[i]).target == t;
                    assert(s[i].target == t);
                }
            }
            insert_place_splits(r, t);
            target_set::target_order(last.target, t, t);
            assert forall|i: int|
                0 <= i < insert_place(s, t) implies target_set::target_before(
                (#[trigger] s[i]).target,
                t,
            ) by {
                assert(s[i] == r[i]);
            }
            assert forall|i: int|
                insert_place(s, t) <= i < s.len() implies target_set::target_before(
                t,
                (#[trigger] s[i]).target,
            ) by {
                if i < r.len() {
                    assert(s[i] == r[i]);
                }
            }
        }
    }
}

proof fn insert_into_table(s: Seq<Mapping>, m: Mapping)
    requires
        is_table(s),
        !has_target(s, m.target),
    ensures
        0 <= insert_place(s, m.target) <= s.len(),
        is_table(s.insert(insert_place(s, m.target), m)),
{
    insert_place_splits(s, m.target);
    let p = insert_place(s, m.target);
    let u = s.insert(p, m);
    assert forall|a: int, b: int| 0 <= a < b < u.len() implies target_set::target_before(
        (#[trigger] u[a]).target,
        (#[trigger] u[b]).target,
    ) by {
        let x = if a < p {
            a
        } else {
            a - 1
        };
        let y = if b < p {
            b
        } else {
            b - 1
        };
        if a == p {
            assert(u[b] == s[y]);
        } else if b == p {
            assert(u[a] == s[x]);
        } else {
            assert(u[a] == s[x] && u[b] == s[y]);
        }
    }
}

/// Brings mappings in order and keeps, for each target, the one with the lowest port.
pub fn sort_and_dedup_connector_mappings(mappings: &mut Vec<ConnectorMapping>)
    ensures
        mappings_of(final(mappings)@) == table_of(mappings_of(old(mappings)@)),
{
    let ghost from = mappings_of(mappings@);
    let mut items: Vec<ConnectorMapping> = Vec::new();
    items.append(mappings);
    let ghost items0 = items@;
    assert(mappings_of(items@) =~= from);
    let sorted = order::sort(items);
    let ghost all = mappings_of(sorted@);
    proof {
        order::stable_sort_keeps_elements(items0, sorted@);
        assert forall|x: Mapping| all.contains(x) <==> from.contains(x) by {
            if all.contains(x) {
                let i = choose|i: int| 0 <= i < all.len() && all[i] == x;
                assert(sorted@.contains(sorted@[i]));
                let k = choose|k: int| 0 <= k < items0.len() && items0[k] == sorted@[i];
                assert(from[k] == x);
            }
            if from.contains(x) {
                let k = choose|k: int| 0 <= k < from.len() && from[k] == x;
                assert(items0.contains(items0[k]));
                let i = choose|i: int| 0 <= i < sorted@.len() && sorted@[i] == items0[k];
                assert(all[i] == x);
            }
        }
    }
    let mut out: Vec<ConnectorMapping> = Vec::new();
    let mut i: usize = 0;
    while i < sorted.len()
        invariant
            i <= sorted.len(),
            all == mappings_of(sorted@),
            order::is_sorted(sorted@),
            is_table(mappings_of(out@)),
            forall|k: int| 0 <= k < out@.len() ==> all.contains(#[trigger] mappings_of(out@)[k]),
            forall|k: int| 0 <= k < i ==> has_target(mappings_of(out@), (#[trigger] all[k]).target),
            forall|k: int, j: int|
                0 <= k < out@.len() && 0 <= j < all.len() && (#[trigger] mappings_of(
                    out@,
                )[k]).target == (#[trigger] all[j]).target ==> mappings_of(out@)[k].listen_port
                    <= all[j].listen_port,
            out@.len() > 0 <==> i > 0,
            i > 0 ==> out@.last()@.target == all[i - 1].target,
        decreases sorted.len() - i,
    {
        let n: usize = out.len();
        let ghost before = mappings_of(out@);
        if n == 0 || !out[n - 1].target.same(&sorted[i].target) {
            let item = sorted[i].clone();
            out.push(item);
            proof {
                let after = mappings_of(out@);
                let m = all[i as int];
                assert(after =~= before.push(m));
                assert forall|j: int|
                    0 <= j < all.len() && (#[trigger] all[j]).target == m.target implies m.listen_port
                    <= all[j].listen_port by {
                    if j < i {
                        let k = choose|k: int|
                            0 <= k < before.len() && (#[trigger] before[k]).target == all[j].target;
                        assert(before[n - 1].target == all[i - 1].target);
                        assert(!sorted@[i as int].before(&sorted@[i - 1]));
                        if j < i - 1 {
                            assert(!sorted@[i - 1].before(&sorted@[j]));
                        }
                        mapping_order(all[i - 1], all[j], m);
                        target_set::target_order(all[i - 1].target, m.target, m.target);
                    } else if j > i {
                        assert(!sorted@[j].before(&sorted@[i as int]));
                    }
                }
                assert forall|a: int, b: int|
                    0 <= a < b < after.len() implies target_set::target_before(
                    (#[trigger] after[a]).target,
                    (#[trigger] after[b]).target,
                ) by {
                    if b == n {
                        assert(before[n - 1].target == all[i - 1].target);
                        assert(!sorted@[i as int].before(&sorted@[i - 1]));
                        target_set::target_order(all[i - 1].target, m.target, m.target);
                        if a < n - 1 {
                            assert(target_set::target_before(
                                before[a].target,
                                before[n - 1].target,
                            ));
                            target_set::target_order(
                                before[a].target,
                                before[n - 1].target,
                                m.target,
                            );
                        }
                    }
                }
                assert forall|k: int| 0 <= k < i + 1 implies has_target(
                    after,
                    (#[trigger] all[k]).target,
                ) by {
                    if k < i {
                        let q = choose|q: int|
                            0 <= q < before.len() && (#[trigger] before[q]).target == all[k].target;
                        assert(after[q] == before[q]);
                    } else {
                        assert(after[n as int] == m);
                    }
                }
                assert forall|k: int| 0 <= k < after.len() implies all.contains(
                    #[trigger] after[k],
                ) by {
                    if k < n {
                        assert(after[k] == before[k]);
                    }
                }
            }
        } else {
            proof {
                assert(before[n - 1].target == all[i as int].target);
            }
        }
        i = i + 1;
    }
    proof {
        let t = mappings_of(out@);
        assert forall|k: int| 0 <= k < t.len() implies from.contains(#[trigger] t[k]) by {
            assert(all.contains(t[k]));
        }
        assert forall|k: int| 0 <= k < from.len() implies has_target(
            t,
            (#[trigger] from[k]).target,
        ) by {
            assert(all.contains(from[k]));
            let j = choose|j: int| 0 <= j < all.len() && all[j] == from[k];
            assert(has_target(t, all[j].target));
        }
        assert forall|q: int, k: int|
            0 <= q < t.len() && 0 <= k < from.len() && (#[trigger] t[q]).target == (
            #[trigger] from[k]).target implies t[q].listen_port <= from[k].listen_port by {
            assert(all.contains(from[k]));
            let j = choose|j: int| 0 <= j < all.len() && all[j] == from[k];
            assert(t[q].listen_port <= all[j].listen_port);
        }
        assert(tabulates(t, from));
        table_exists(from);
        table_is_unique(t, table_of(from), from);
    }
    *mappings = out;
}

// ---------------------------------------------------------------------------
// Assigning and removing ports
// ---------------------------------------------------------------------------

/// The lowest connector port from `port` on that `table` leaves free.
pub open spec fn free_port_from(table: Seq<Mapping>, port: int) -> Option<u16>
    decreases CONNECTOR_PORT_END + 1 - port,
{
    if port > CONNECTOR_PORT_END {
        None
    } else if uses_port(table, port as u16) {
        free_port_from(table, port + 1)
    } else {
        Some(port as u16)
    }
}

/// The port for a target: the one that `table` has for it, or the lowest free one.
pub open spec fn port_for(table: Seq<Mapping>, t: Target) -> Option<u16> {
    if has_target(table, t) {
        let i = choose|i: int| 0 <= i < table.len() && (#[trigger] table[i]).target == t;
        Some(table[i].listen_port)
    } else {
        free_port_from(table, CONNECTOR_PORT_START as int)
    }
}

/// In a table the mapping for a target is the only one, and gives its port.
pub proof fn port_in_table(table: Seq<Mapping>, i: int)
    requires
        is_table(table),
        0 <= i < table.len(),
    ensures
        port_for(table, table[i].target) == Some(table[i].listen_port),
        forall|j: int|
            0 <= j < table.len() && (#[trigger] table[j]).target == table[i].target ==> j == i,
{
    assert forall|j: int|
        0 <= j < table.len() && (#[trigger] table[j]).target == table[i].target implies j == i by {
        target_set::target_order(table[i].target, table[i].target, table[i].target);
        if j < i {
            assert(target_set::target_before(table[j].target, table[i].target));
        } else if i < j {
            assert(target_set::target_before(table[i].target, table[j].target));
        }
    }
    assert(has_target(table, table[i].target));
}

/// A table is its own table, also with one of its mappings added once more.
proof fn table_of_table(table: Seq<Mapping>, i: int)
    requires
        is_table(table),
        0 <= i < table.len(),
    ensures
        table_of(table.push(table[i])) == table,
{
    let from = table.push(table[i]);
    assert forall|k: int| 0 <= k < table.len() implies from.contains(#[trigger] table[k]) by {
        assert(from[k] == table[k]);
    }
    assert forall|a: int, k: int|
        0 <= a < table.len() && 0 <= k < from.len() && (#[trigger] table[a]).target == (
        #[trigger] from[k]).target implies table[a].listen_port <= from[k].listen_port by {
        port_in_table(table, a);
        if k < table.len() {
            assert(from[k] == table[k]);
        }
    }
    assert forall|k: int| 0 <= k < from.len() implies has_target(
        table,
        (#[trigger] from[k]).target,
    ) by {
        if k < table.len() {
            assert(table[k] == from[k]);
        } else {
            assert(table[i] == from[k]);
        }
    }
    table_exists(from);
    table_is_unique(table, table_of(from), from);
}

/// What a mapping result holds.
pub open spec fn mapping_result(r: Result<ConnectorMapping, EgressError>) -> Result<
    Mapping,
    EgressError,
> {
    match r {
        Ok(m) => Ok(m@),
        Err(e) => Err(e),
    }
}

/// The mapping that a connector request for `t` is answered with, where `from` are the mappings
/// so far.
pub open spec fn ensured(from: Seq<Mapping>, t: Target) -> Result<Mapping, EgressError> {
    if !egress::is_connector_kind(t.kind) {
        Err(EgressError::NotAConnector)
    } else {
        match port_for(table_of(from), t) {
            Some(port) => Ok(Mapping { target: t, listen_port: port }),
            None => Err(EgressError::NoConnectorPorts),
        }
    }
}

/// The mappings after a connector request for `t`.
pub open spec fn after_ensure(from: Seq<Mapping>, t: Target) -> Seq<Mapping> {
    match ensured(from, t) {
        Ok(m) => table_of(table_of(from).push(m)),
        Err(EgressError::NotAConnector) => from,
        Err(_) => table_of(from),
    }
}

/// Finds the connector port of a target, or assigns the lowest free one.
pub fn ensure_connector_mapping(
    mappings: &mut Vec<ConnectorMapping>,
    target: &EgressTarget,
) -> (r: Result<ConnectorMapping, EgressError>)
    ensures
        mapping_result(r) == ensured(mappings_of(old(mappings)@), target@),
        mappings_of(final(mappings)@) == after_ensure(mappings_of(old(mappings)@), target@),
{
    if !target.uses_connector() {
        return Err(EgressError::NotAConnector);
    }
    let ghost from = mappings_of(mappings@);
    let ghost table = table_of(from);
    proof {
        table_exists(from);
    }
    sort_and_dedup_connector_mappings(mappings);
    let mut i: usize = 0;
    while i < mappings.len()
        invariant
            table == table_of(from),
            is_table(table),
            egress::is_connector_kind(target@.kind),
            from == mappings_of(old(mappings)@),
            mappings_of(mappings@) == table,
            i <= mappings.len(),
            forall|k: int| 0 <= k < i ==> (#[trigger] table[k]).target != target@,
        decreases mappings.len() - i,
    {
        if mappings[i].target.same(target) {
            let found = mappings[i].clone();
            proof {
                assert(table[i as int] == found@);
                port_in_table(table, i as int);
                table_of_table(table, i as int);
                assert(found@ =~= Mapping { target: target@, listen_port: found@.listen_port });
            }
            return Ok(found);
        }
        i = i + 1;
    }
    assert(!has_target(table, target@));
    let mut port: u16 = CONNECTOR_PORT_START;
    while port <= CONNECTOR_PORT_END
        invariant
            table == table_of(from),
            !has_target(table, target@),
            egress::is_connector_kind(target@.kind),
            from == mappings_of(old(mappings)@),
            mappings_of(mappings@) == table,
            CONNECTOR_PORT_START <= port <= CONNECTOR_PORT_END + 1,
            free_port_from(table, CONNECTOR_PORT_START as int) == free_port_from(table, port as int),
        decreases CONNECTOR_PORT_END + 1 - port,
    {
        if !is_port_used(mappings, port) {
            let mapping = ConnectorMapping { target: target.clone(), listen_port: port };
            let ghost m = mapping@;
            let added = mapping.clone();
            mappings.push(added);
            proof {
                assert(mappings_of(mappings@) =~= table.push(m));
                assert(m =~= Mapping { target: target@, listen_port: port });
            }
            sort_and_dedup_connector_mappings(mappings);
            return Ok(mapping);
        }
        port = port + 1;
    }
    Err(EgressError::NoConnectorPorts)
}

fn is_port_used(mappings: &Vec<ConnectorMapping>, port: u16) -> (r: bool)
    ensures
        r == uses_port(mappings_of(mappings@), port),
{
    let mut i: usize = 0;
    while i < mappings.len()
        invariant
            i <= mappings.len(),
            forall|k: int|
                0 <= k < i ==> (#[trigger] mappings_of(mappings@)[k]).listen_port != port,
        decreases mappings.len() - i,
    {
        if mappings[i].listen_port == port {
            assert(mappings_of(mappings@)[i as int].listen_port == port);
            return true;
        }
        i = i + 1;
    }
    false
}

/// The mappings of `from` for targets other than `t`.
pub open spec fn without_target(from: Seq<Mapping>, t: Target) -> Seq<Mapping> {
    from.filter(|m: Mapping| m.target != t)
}

/// Removes the mapping of a target. The result tells whether the number of mappings changed.
pub fn remove_connector_mapping(
    mappings: &mut Vec<ConnectorMapping>,
    target: &EgressTarget,
) -> (r: bool)
    ensures
        mappings_of(final(mappings)@) == table_of(
            without_target(mappings_of(old(mappings)@), target@),
        ),
        r == (final(mappings)@.len() != old(mappings)@.len()),
{
    let ghost from = mappings_of(mappings@);
    let ghost keep = |m: Mapping| m.target != target@;
    let before: usize = mappings.len();
    let mut kept: Vec<ConnectorMapping> = Vec::new();
    let mut i: usize = 0;
    assert(from.take(0) =~= Seq::<Mapping>::empty());
    reveal(Seq::filter);
    assert(mappings_of(kept@) =~= from.take(0).filter(keep));
    while i < mappings.len()
        invariant
            i <= mappings.len(),
            from == mappings_of(mappings@),
            keep == (|m: Mapping| m.target != target@),
            mappings_of(kept@) == from.take(i as int).filter(keep),
        decreases mappings.len() - i,
    {
        reveal(Seq::filter);
        let ghost earlier = mappings_of(kept@);
        assert(from.take(i + 1).drop_last() =~= from.take(i as int));
        assert(from.take(i + 1).last() == from[i as int]);
        if !mappings[i].target.same(target) {
            let item = mappings[i].clone();
            kept.push(item);
            assert(mappings_of(kept@) =~= earlier.push(from[i as int]));
        }
        i = i + 1;
    }
    assert(from.take(i as int) =~= from);
    *mappings = kept;
    sort_and_dedup_connector_mappings(mappings);
    mappings.len() != before
}

/// The addresses of connectors by the text of their targets. Where two targets have the same text
/// the later mapping decides.
pub open spec fn endpoint_map(s: Seq<Mapping>) -> Map<Seq<char>, Seq<char>>
    decreases s.len(),
{
    if s.len() == 0 {
        Map::empty()
    } else {
        endpoint_map(s.drop_last()).insert(
            egress::target_text(s.last().target),
            endpoint_text(s.last().listen_port),
        )
    }
}

/// The address of the connector for the target with text `key`.
pub open spec fn endpoint_named(s: Seq<Mapping>, key: Seq<char>) -> Option<Seq<char>> {
    if endpoint_map(s).contains_key(key) {
        Some(endpoint_map(s)[key])
    } else {
        None
    }
}

/// What an optional text holds.
pub open spec fn opt_text(s: Option<String>) -> Option<Seq<char>> {
    match s {
        Some(s) => Some(s@),
        None => None,
    }
}

/// Looks up the address of the connector for the target with text `key`.
pub fn endpoint_for(mappings: &Vec<ConnectorMapping>, key: &str) -> (r: Option<String>)
    ensures
        opt_text(r) == endpoint_named(mappings_of(mappings@), key@),
{
    let ghost s = mappings_of(mappings@);
    let mut i: usize = mappings.len();
    assert(s.take(i as int) =~= s);
    while i > 0
        invariant
            i <= mappings.len(),
            s == mappings_of(mappings@),
            endpoint_named(s, key@) == endpoint_named(s.take(i as int), key@),
        decreases i,
    {
        let ghost t = s.take(i as int);
        i = i - 1;
        let found = mappings[i].target.to_text();
        proof {
            assert(t.drop_last() =~= s.take(i as int));
            assert(t.last() == s[i as int]);
        }
        if text::equals(&found, key) {
            return Some(mappings[i].endpoint());
        }
    }
    assert(s.take(0) =~= Seq::<Mapping>::empty());
    None
}

// ---------------------------------------------------------------------------
// Laws
// ---------------------------------------------------------------------------

/// Whether no port is used twice.
pub open spec fn has_distinct_ports(s: Seq<Mapping>) -> bool {
    forall|i: int, j: int|
        0 <= i < j < s.len() ==> (#[trigger] s[i]).listen_port != (#[trigger] s[j]).listen_port
}

/// Mappings without two different ones for a target make up their table.
proof fn table_members(from: Seq<Mapping>)
    requires
        forall|a: int, b: int|
            0 <= a < from.len() && 0 <= b < from.len() && (#[trigger] from[a]).target == (
            #[trigger] from[b]).target ==> from[a] == from[b],
    ensures
        is_table(table_of(from)),
        forall|x: Mapping| #[trigger] table_of(from).contains(x) <==> from.contains(x),
{
    table_exists(from);
    let tab = table_of(from);
    assert forall|x: Mapping| #[trigger] tab.contains(x) <==> from.contains(x) by {
        if tab.contains(x) {
            let i = choose|i: int| 0 <= i < tab.len() && tab[i] == x;
            assert(from.contains(tab[i]));
        }
        if from.contains(x) {
            let k = choose|k: int| 0 <= k < from.len() && from[k] == x;
            assert(has_target(tab, from[k].target));
            let i = choose|i: int| 0 <= i < tab.len() && (#[trigger] tab[i]).target == x.target;
            assert(from.contains(tab[i]));
            let q = choose|q: int| 0 <= q < from.len() && from[q] == tab[i];
            assert(from[q] == from[k]);
        }
    }
}

/// A mapping for a target without one is added to a table, and nothing else changes.
proof fn table_with_new(table: Seq<Mapping>, m: Mapping)
    requires
        is_table(table),
        !has_target(table, m.target),
    ensures
        is_table(table_of(table.push(m))),
        forall|x: Mapping|
            #[trigger] table_of(table.push(m)).contains(x) <==> table.contains(x) || x == m,
{
    let from = table.push(m);
    assert forall|a: int, b: int|
        0 <= a < from.len() && 0 <= b < from.len() && (#[trigger] from[a]).target == (
        #[trigger] from[b]).target implies from[a] == from[b] by {
        if a < table.len() && b < table.len() {
            assert(from[a] == table[a] && from[b] == table[b]);
            port_in_table(table, a);
        } else if a < table.len() {
            assert(table[a] == from[a]);
        } else if b < table.len() {
            assert(table[b] == from[b]);
        }
    }
    table_members(from);
    assert forall|x: Mapping|
        #[trigger] table_of(from).contains(x) <==> table.contains(x) || x == m by {
        if table.contains(x) {
            let i = choose|i: int| 0 <= i < table.len() && table[i] == x;
            assert(from[i] == x);
        }
        assert(from[table.len() as int] == m);
        if from.contains(x) {
            let i = choose|i: int| 0 <= i < from.len() && from[i] == x;
            if i < table.len() {
                assert(table[i] == x);
            }
        }
    }
}

/// A free port lies in the connector range and is not in use.
proof fn free_port_is_free(table: Seq<Mapping>, port: int)
    requires
        CONNECTOR_PORT_START <= port,
        free_port_from(table, port) is Some,
    ensures
        CONNECTOR_PORT_START <= free_port_from(table, port)->0 <= CONNECTOR_PORT_END,
        !uses_port(table, free_port_from(table, port)->0),
    decreases CONNECTOR_PORT_END + 1 - port,
{
    if port <= CONNECTOR_PORT_END && uses_port(table, port as u16) {
        free_port_is_free(table, port + 1);
    }
}

/// A connector request that was granted is granted again with the same port, and changes nothing
/// then: the connector is in the table.
pub proof fn granted_connector_is_stable(from: Seq<Mapping>, t: Target, m: Mapping)
    requires
        ensured(from, t) == Ok::<Mapping, EgressError>(m),
    ensures
        ensured(after_ensure(from, t), t) == Ok::<Mapping, EgressError>(m),
        after_ensure(after_ensure(from, t), t) == after_ensure(from, t),
        after_ensure(from, t).contains(m),
        is_table(after_ensure(from, t)),
{
    table_exists(from);
    let table = table_of(from);
    let after = after_ensure(from, t);
    if has_target(table, t) {
        let i = choose|i: int| 0 <= i < table.len() && (#[trigger] table[i]).target == t;
        port_in_table(table, i);
        assert(m =~= table[i]);
        table_of_table(table, i);
    } else {
        table_with_new(table, m);
    }
    assert(is_table(after));
    assert(after.contains(m)) by {
        if has_target(table, t) {
            let i = choose|i: int| 0 <= i < table.len() && (#[trigger] table[i]).target == t;
            assert(after[i] == m);
        }
    }
    let k = choose|k: int| 0 <= k < after.len() && after[k] == m;
    table_of_fixed(after);
    port_in_table(after, k);
    table_of_table(after, k);
}

/// A table is its own table.
pub proof fn table_of_fixed(table: Seq<Mapping>)
    requires
        is_table(table),
    ensures
        table_of(table) == table,
{
    assert forall|k: int| 0 <= k < table.len() implies table.contains(#[trigger] table[k]) by {}
    assert forall|a: int, k: int|
        0 <= a < table.len() && 0 <= k < table.len() && (#[trigger] table[a]).target == (
        #[trigger] table[k]).target implies table[a].listen_port <= table[k].listen_port by {
        port_in_table(table, a);
    }
    table_exists(table);
    table_is_unique(table, table_of(table), table);
}

/// A connector request leaves the mappings of other targets as they are.
pub proof fn ensure_keeps_other_targets(table: Seq<Mapping>, t: Target, x: Mapping)
    requires
        is_table(table),
        x.target != t,
    ensures
        after_ensure(table, t).contains(x) <==> table.contains(x),
        is_table(after_ensure(table, t)),
{
    table_of_fixed(table);
    if ensured(table, t) is Ok {
        let m = ensured(table, t)->Ok_0;
        if has_target(table, t) {
            let i = choose|i: int| 0 <= i < table.len() && (#[trigger] table[i]).target == t;
            port_in_table(table, i);
            assert(m =~= table[i]);
            table_of_table(table, i);
        } else {
            table_with_new(table, m);
        }
    }
}

/// Connector requests never assign a port twice, and assign only connector ports.
pub proof fn ensure_keeps_ports_distinct(table: Seq<Mapping>, t: Target)
    requires
        is_table(table),
        has_distinct_ports(table),
    ensures
        has_distinct_ports(after_ensure(table, t)),
        ensured(table, t) is Ok && !has_target(table, t) ==> CONNECTOR_PORT_START <= ensured(
            table,
            t,
        )->Ok_0.listen_port <= CONNECTOR_PORT_END && !uses_port(
            table,
            ensured(table, t)->Ok_0.listen_port,
        ),
{
    table_of_fixed(table);
    if ensured(table, t) is Ok {
        let m = ensured(table, t)->Ok_0;
        if has_target(table, t) {
            let i = choose|i: int| 0 <= i < table.len() && (#[trigger] table[i]).target == t;
            port_in_table(table, i);
            assert(m =~= table[i]);
            table_of_table(table, i);
        } else {
            free_port_is_free(table, CONNECTOR_PORT_START as int);
            table_with_new(table, m);
            let after = after_ensure(table, t);
            assert forall|i: int, j: int| 0 <= i < j < after.len() implies (
            #[trigger] after[i]).listen_port != (#[trigger] after[j]).listen_port by {
                assert(after.contains(after[i]) && after.contains(after[j]));
                assert(target_set::target_before(after[i].target, after[j].target));
                target_set::target_order(after[i].target, after[i].target, after[i].target);
                if after[i] == m {
                    let k = choose|k: int| 0 <= k < table.len() && table[k] == after[j];
                    assert(table[k].listen_port != m.listen_port);
                } else if after[j] == m {
                    let k = choose|k: int| 0 <= k < table.len() && table[k] == after[i];
                    assert(table[k].listen_port != m.listen_port);
                } else {
                    let a = choose|a: int| 0 <= a < table.len() && table[a] == after[i];
                    let b = choose|b: int| 0 <= b < table.len() && table[b] == after[j];
                    assert(a != b);
                    if a < b {
                        assert(table[a].listen_port != table[b].listen_port);
                    } else {
                        assert(table[b].listen_port != table[a].listen_port);
                    }
                }
            }
        }
    }
}

/// Removing a target forgets its mapping and keeps those of the other targets.
pub proof fn removal_forgets_target(table: Seq<Mapping>, t: Target, x: Mapping)
    requires
        is_table(table),
    ensures
        is_table(table_of(without_target(table, t))),
        !has_target(table_of(without_target(table, t)), t),
        table_of(without_target(table, t)).contains(x) <==> table.contains(x) && x.target != t,
{
    let keep = |m: Mapping| m.target != t;
    let from = without_target(table, t);
    assert forall|m: Mapping| from.contains(m) <==> table.contains(m) && m.target != t by {
        if from.contains(m) {
            let i = choose|i: int| 0 <= i < from.len() && from[i] == m;
            table.lemma_filter_pred(keep, i);
            table.lemma_filter_contains_rev(keep, m);
        }
        if table.contains(m) && m.target != t {
            let i = choose|i: int| 0 <= i < table.len() && table[i] == m;
            table.lemma_filter_contains(keep, i);
        }
    }
    assert forall|a: int, b: int|
        0 <= a < from.len() && 0 <= b < from.len() && (#[trigger] from[a]).target == (
        #[trigger] from[b]).target implies from[a] == from[b] by {
        assert(from.contains(from[a]) && from.contains(from[b]));
        let i = choose|i: int| 0 <= i < table.len() && table[i] == from[a];
        let j = choose|j: int| 0 <= j < table.len() && table[j] == from[b];
        port_in_table(table, i);
    }
    table_members(from);
    let tab = table_of(from);
    if has_target(tab, t) {
        let i = choose|i: int| 0 <= i < tab.len() && (#[trigger] tab[i]).target == t;
        assert(tab.contains(tab[i]));
    }
}

} // verus!
