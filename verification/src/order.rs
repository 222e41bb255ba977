//! Orders, and sorting by them.
use crate::text;
use vstd::prelude::*;

verus! {

// ---------------------------------------------------------------------------
// Text
// ---------------------------------------------------------------------------

/// The lexicographic order of text by character value.
pub open spec fn text_before(a: Seq<char>, b: Seq<char>) -> bool
    decreases a.len(),
{
    if b.len() == 0 {
        false
    } else if a.len() == 0 {
        true
    } else if a[0] != b[0] {
        a[0] < b[0]
    } else {
        text_before(a.drop_first(), b.drop_first())
    }
}

/// No text stands before itself.
pub proof fn text_before_irreflexive(a: Seq<char>)
    ensures
        !text_before(a, a),
    decreases a.len(),
{
    if a.len() > 0 {
        text_before_irreflexive(a.drop_first());
    }
}

/// Text order is transitive.
pub proof fn text_before_transitive(a: Seq<char>, b: Seq<char>, c: Seq<char>)
    requires
        text_before(a, b),
        text_before(b, c),
    ensures
        text_before(a, c),
    decreases a.len(),
{
    if a.len() > 0 && a[0] == b[0] && b[0] == c[0] {
        text_before_transitive(a.drop_first(), b.drop_first(), c.drop_first());
    }
}

/// Of two different texts one stands before the other.
pub proof fn text_before_total(a: Seq<char>, b: Seq<char>)
    ensures
        a == b || text_before(a, b) || text_before(b, a),
    decreases a.len(),
{
    if a.len() > 0 && b.len() > 0 {
        if a[0] == b[0] {
            text_before_total(a.drop_first(), b.drop_first());
            if a.drop_first() == b.drop_first() {
                assert(a =~= seq![a[0]] + a.drop_first());
                assert(b =~= seq![b[0]] + b.drop_first());
            }
        }
    } else if a.len() == 0 && b.len() == 0 {
        assert(a =~= b);
    }
}

/// Compares two texts.
pub fn text_is_before(a: &str, b: &str) -> (r: bool)
    ensures
        r == text_before(a@, b@),
{
    let x = text::chars_of(a);
    let y = text::chars_of(b);
    let mut i: usize = 0;
    assert(x@.skip(0) == x@ && y@.skip(0) == y@);
    while i < x.len() && i < y.len() && x[i] == y[i]
        invariant
            x@ == a@,
            y@ == b@,
            i <= x.len(),
            i <= y.len(),
            text_before(a@, b@) == text_before(a@.skip(i as int), b@.skip(i as int)),
        decreases x.len() - i,
    {
        assert(a@.skip(i as int).drop_first() == a@.skip(i + 1));
        assert(b@.skip(i as int).drop_first() == b@.skip(i + 1));
        i = i + 1;
    }
    if i == y.len() {
        false
    } else if i == x.len() {
        true
    } else {
        assert(a@.skip(i as int)[0] == x@[i as int]);
        assert(b@.skip(i as int)[0] == y@[i as int]);
        x[i] < y[i]
    }
}

// ---------------------------------------------------------------------------
// Ordered types
// ---------------------------------------------------------------------------

/// A type with a strict weak order.
pub trait Ordered: Sized {
    /// Whether `self` stands before `other`.
    spec fn before(&self, other: &Self) -> bool;

    /// Nothing stands before itself.
    proof fn before_irreflexive(a: &Self)
        ensures
            !a.before(a),
    ;

    /// The order is transitive.
    proof fn before_transitive(a: &Self, b: &Self, c: &Self)
        requires
            a.before(b),
            b.before(c),
        ensures
            a.before(c),
    ;

    /// A third value cannot share its place with two values of which one stands before the other.
    proof fn before_splits(a: &Self, b: &Self, c: &Self)
        requires
            a.before(c),
        ensures
            a.before(b) || b.before(c),
    ;

    /// Compares two values.
    fn is_before(&self, other: &Self) -> (r: bool)
        ensures
            r == self.before(other),
    ;
}

/// Whether neither of two values stands before the other.
pub open spec fn same_place<T: Ordered>(a: T, b: T) -> bool {
    !a.before(&b) && !b.before(&a)
}

/// The elements of `s` that share their place with `e`, in the order in which `s` has them.
pub open spec fn place_class<T: Ordered>(s: Seq<T>, e: T) -> Seq<T> {
    s.filter(|x: T| same_place(x, e))
}

/// Whether no element of `s` stands before an earlier one.
pub open spec fn is_sorted<T: Ordered>(s: Seq<T>) -> bool {
    forall|i: int, j: int|
        #![trigger s[i], s[j]]
        0 <= i < j < s.len() ==> !s[j].before(&s[i])
}

/// Whether each element of `s` stands before all later ones.
pub open spec fn is_strictly_sorted<T: Ordered>(s: Seq<T>) -> bool {
    forall|i: int, j: int|
        #![trigger s[i], s[j]]
        0 <= i < j < s.len() ==> s[i].before(&s[j])
}

/// Whether `to` is `from` in order, with elements of the same place left in the order they had.
pub open spec fn is_stable_sort<T: Ordered>(from: Seq<T>, to: Seq<T>) -> bool {
    &&& is_sorted(to)
    &&& to.to_multiset() == from.to_multiset()
    &&& forall|e: T| #[trigger] place_class(to, e) == place_class(from, e)
}

/// A stable sort has the elements of what it sorts, and no others.
pub proof fn stable_sort_keeps_elements<T: Ordered>(from: Seq<T>, to: Seq<T>)
    requires
        is_stable_sort(from, to),
    ensures
        to.len() == from.len(),
        forall|x: T| to.contains(x) <==> from.contains(x),
{
    from.to_multiset_ensures();
    to.to_multiset_ensures();
    assert forall|x: T| to.contains(x) <==> from.contains(x) by {
        assert(to.contains(x) <==> to.to_multiset().count(x) > 0);
        assert(from.contains(x) <==> from.to_multiset().count(x) > 0);
    }
}

proof fn class_of_insert<T: Ordered>(s: Seq<T>, p: int, x: T, e: T)
    requires
        0 <= p <= s.len(),
        forall|i: int| 0 <= i < p ==> (#[trigger] s[i]).before(&x),
    ensures
        place_class(s.insert(p, x), e) == place_class(seq![x], e) + place_class(s, e),
{
    let f = |y: T| same_place(y, e);
    let a = s.take(p);
    let b = s.skip(p);
    assert(s.insert(p, x) =~= (a + seq![x]) + b);
    assert(s =~= a + b);
    Seq::filter_distributes_over_add(a + seq![x], b, f);
    Seq::filter_distributes_over_add(a, seq![x], f);
    Seq::filter_distributes_over_add(a, b, f);
    if same_place(x, e) {
        assert forall|i: int| 0 <= i < a.len() implies !f(#[trigger] a[i]) by {
            assert(a[i] == s[i]);
            T::before_splits(&a[i], &e, &x);
        }
        a.lemma_all_neg_filter_empty(f);
        assert(a.filter(f) =~= Seq::<T>::empty());
    } else {
        assert forall|i: int| 0 <= i < seq![x].len() implies !f(#[trigger] seq![x][i]) by {}
        seq![x].lemma_all_neg_filter_empty(f);
        assert(seq![x].filter(f) =~= Seq::<T>::empty());
    }
    assert(s.insert(p, x).filter(f) =~= seq![x].filter(f) + s.filter(f));
}

proof fn sorted_insert<T: Ordered>(s: Seq<T>, p: int, x: T)
    requires
        is_sorted(s),
        0 <= p <= s.len(),
        forall|i: int| 0 <= i < p ==> (#[trigger] s[i]).before(&x),
        p < s.len() ==> !s[p].before(&x),
    ensures
        is_sorted(s.insert(p, x)),
{
    let t = s.insert(p, x);
    assert forall|i: int, j: int|
        #![trigger t[i], t[j]]
        0 <= i < j < t.len() implies !t[j].before(&t[i]) by {
        let si = if i < p {
            i
        } else {
            i - 1
        };
        let sj = if j < p {
            j
        } else {
            j - 1
        };
        if i == p {
            assert(t[j] == s[sj]);
            if s[sj].before(&x) {
                T::before_splits(&s[sj], &s[p], &x);
                if sj > p {
                    assert(!s[sj].before(&s[p]));
                } else {
                    T::before_irreflexive(&s[p]);
                }
            }
        } else if j == p {
            assert(t[i] == s[i]);
            if x.before(&s[i]) {
                T::before_transitive(&s[i], &x, &s[i]);
                T::before_irreflexive(&s[i]);
            }
        } else {
            assert(t[i] == s[si]);
            assert(t[j] == s[sj]);
        }
    }
}

/// Sorts a list, leaving elements of the same place in the order they had.
pub fn sort<T: Ordered>(v: Vec<T>) -> (r: Vec<T>)
    ensures
        is_stable_sort(v@, r@),
{
    let ghost from = v@;
    let mut rest = v;
    let mut out: Vec<T> = Vec::new();
    assert(from.skip(from.len() as int) =~= Seq::<T>::empty());
    assert(rest@ =~= from.take(from.len() as int));
    while rest.len() > 0
        invariant
            rest@.len() <= from.len(),
            rest@ == from.take(rest@.len() as int),
            is_stable_sort(from.skip(rest@.len() as int), out@),
        decreases rest@.len(),
    {
        let ghost n = rest@.len() as int;
        let x = rest.pop().unwrap();
        let mut p: usize = 0;
        while p < out.len() && out[p].is_before(&x)
            invariant
                p <= out.len(),
                forall|i: int| 0 <= i < p ==> (#[trigger] out@[i]).before(&x),
            decreases out.len() - p,
        {
            p = p + 1;
        }
        proof {
            let s = from.skip(n);
            let t = out@;
            assert(x == from[n - 1]);
            assert(from.skip(n - 1) =~= seq![x] + s);
            assert(rest@ =~= from.take(n - 1));
            sorted_insert(t, p as int, x);
            assert forall|e: T| #[trigger] place_class(t.insert(p as int, x), e) == place_class(
                from.skip(n - 1),
                e,
            ) by {
                class_of_insert(t, p as int, x, e);
                Seq::filter_distributes_over_add(seq![x], s, |y: T| same_place(y, e));
                assert(place_class(t, e) == place_class(s, e));
            }
            assert(seq![x] + s =~= s.insert(0, x));
            vstd::seq_lib::to_multiset_insert(s, 0, x);
            vstd::seq_lib::to_multiset_insert(t, p as int, x);
        }
        out.insert(p, x);
    }
    assert(from.skip(0) =~= from);
    out
}

/// Sorts a list and keeps one element of each place.
pub fn sort_unique<T: Ordered>(v: Vec<T>) -> (r: Vec<T>)
    ensures
        is_strictly_sorted(r@),
        forall|x: T| #[trigger] r@.contains(x) ==> v@.contains(x),
        forall|x: T| #[trigger] v@.contains(x) ==> exists|y: T|
            #[trigger] r@.contains(y) && same_place(x, y),
{
    let ghost from = v@;
    let sorted = sort(v);
    let ghost all = sorted@;
    proof {
        stable_sort_keeps_elements(from, all);
    }
    let mut rest = sorted;
    let mut out: Vec<T> = Vec::new();
    // The kept elements are collected from the last to the first.
    assert(rest@ =~= all.take(all.len() as int));
    while rest.len() > 0
        invariant
            is_sorted(all),
            rest@.len() <= all.len(),
            rest@ == all.take(rest@.len() as int),
            forall|i: int, j: int|
                #![trigger out@[i], out@[j]]
                0 <= i < j < out@.len() ==> out@[j].before(&out@[i]),
            forall|i: int| 0 <= i < out@.len() ==> all.contains(#[trigger] out@[i]),
            out@.len() > 0 ==> forall|k: int|
                #![trigger all[k]]
                0 <= k < rest@.len() ==> !(out@.last().before(&all[k])),
            forall|k: int|
                rest@.len() <= k < all.len() ==> exists|j: int|
                    0 <= j < out@.len() && same_place(#[trigger] all[k], #[trigger] out@[j]),
        decreases rest@.len(),
    {
        let ghost n = rest@.len() as int;
        let x = rest.pop().unwrap();
        let m: usize = out.len();
        proof {
            assert(x == all[n - 1]);
            assert(rest@ =~= all.take(n - 1));
        }
        let fresh: bool = m == 0 || x.is_before(&out[m - 1]);
        if fresh {
            let ghost before = out@;
            out.push(x);
            proof {
                assert forall|i: int, j: int|
                    #![trigger out@[i], out@[j]]
                    0 <= i < j < out@.len() implies out@[j].before(&out@[i]) by {
                    if j == m && i < m - 1 {
                        assert(before[m - 1].before(&before[i]));
                        T::before_transitive(&x, &before[m - 1], &before[i]);
                    }
                }
                assert forall|k: int| n - 1 <= k < all.len() implies exists|j: int|
                    0 <= j < out@.len() && same_place(#[trigger] all[k], #[trigger] out@[j]) by {
                    if k == n - 1 {
                        T::before_irreflexive(&x);
                        assert(same_place(all[k], out@[m as int]));
                    } else {
                        let j = choose|j: int|
                            0 <= j < before.len() && same_place(
                                #[trigger] all[k],
                                #[trigger] before[j],
                            );
                        assert(same_place(all[k], out@[j]));
                    }
                }
            }
        } else {
            proof {
                assert(same_place(all[n - 1], out@[m - 1]));
            }
        }
    }
    let ghost kept = out@;
    let mut r: Vec<T> = Vec::new();
    assert(out@ =~= kept.take(kept.len() as int));
    while out.len() > 0
        invariant
            out@.len() + r@.len() == kept.len(),
            out@ == kept.take(out@.len() as int),
            forall|i: int| 0 <= i < r@.len() ==> #[trigger] r@[i] == kept[kept.len() - 1 - i],
        decreases out@.len(),
    {
        let ghost n = out@.len() as int;
        let x = out.pop().unwrap();
        assert(x == kept[n - 1]);
        assert(out@ =~= kept.take(n - 1));
        r.push(x);
    }
    proof {
        assert forall|x: T| #[trigger] r@.contains(x) implies from.contains(x) by {
            let i = choose|i: int| 0 <= i < r@.len() && r@[i] == x;
            assert(all.contains(kept[kept.len() - 1 - i]));
        }
        assert forall|x: T| #[trigger] from.contains(x) implies exists|y: T|
            #[trigger] r@.contains(y) && same_place(x, y) by {
            assert(all.contains(x));
            let k = choose|k: int| 0 <= k < all.len() && all[k] == x;
            let j = choose|j: int|
                0 <= j < kept.len() && same_place(#[trigger] all[k], #[trigger] kept[j]);
            let i = kept.len() - 1 - j;
            assert(r@[i] == kept[j]);
            assert(r@.contains(kept[j]));
        }
    }
    r
}

/// Puts an element in its place, unless an element of the same place is there.
pub fn insert_unique<T: Ordered>(v: &mut Vec<T>, x: T) -> (r: bool)
    requires
        is_strictly_sorted(old(v)@),
    ensures
        is_strictly_sorted(final(v)@),
        r == !(exists|i: int|
            #![trigger old(v)@[i]]
            0 <= i < old(v)@.len() && same_place(old(v)@[i], x)),
        !r ==> final(v)@ == old(v)@,
        r ==> exists|p: int| 0 <= p <= old(v)@.len() && final(v)@ == #[trigger] old(v)@.insert(p, x),
{
    let mut p: usize = 0;
    while p < v.len() && v[p].is_before(&x)
        invariant
            v@ == old(v)@,
            p <= v.len(),
            forall|i: int| #![trigger v@[i]] 0 <= i < p ==> v@[i].before(&x),
        decreases v.len() - p,
    {
        p = p + 1;
    }
    if p < v.len() && !x.is_before(&v[p]) {
        assert(same_place(v@[p as int], x));
        return false;
    }
    proof {
        let s = v@;
        let t = s.insert(p as int, x);
        assert forall|i: int| #![trigger s[i]] p <= i < s.len() implies x.before(&s[i]) by {
            if i > p {
                assert(s[p as int].before(&s[i]));
                T::before_transitive(&x, &s[p as int], &s[i]);
            }
        }
        assert forall|i: int, j: int|
            #![trigger t[i], t[j]]
            0 <= i < j < t.len() implies t[i].before(&t[j]) by {
            if j < p {
                assert(t[i] == s[i] && t[j] == s[j]);
            } else if j == p {
                assert(t[i] == s[i]);
            } else if i < p {
                assert(t[i] == s[i] && t[j] == s[j - 1]);
            } else if i == p {
                assert(t[j] == s[j - 1]);
            } else {
                assert(t[i] == s[i - 1] && t[j] == s[j - 1]);
            }
        }
    }
    v.insert(p, x);
    true
}

/// Two lists in strict order with the same elements are the same list.
pub proof fn sorted_list_is_unique<A>(a: Seq<A>, b: Seq<A>, lt: spec_fn(A, A) -> bool)
    requires
        forall|x: A, y: A| #[trigger] lt(x, y) ==> !lt(y, x),
        forall|i: int, j: int|
            #![trigger a[i], a[j]]
            0 <= i < j < a.len() ==> lt(a[i], a[j]),
        forall|i: int, j: int|
            #![trigger b[i], b[j]]
            0 <= i < j < b.len() ==> lt(b[i], b[j]),
        forall|x: A| a.contains(x) <==> b.contains(x),
    ensures
        a == b,
    decreases a.len(),
{
    if a.len() == 0 {
        if b.len() > 0 {
            assert(b.contains(b[0]));
        }
        assert(a =~= b);
    } else {
        assert(a.contains(a[0]));
        let k = choose|k: int| 0 <= k < b.len() && b[k] == a[0];
        assert(b.contains(b[0]));
        let m = choose|m: int| 0 <= m < a.len() && a[m] == b[0];
        if m > 0 {
            assert(lt(a[0], a[m]));
            if k > 0 {
                assert(lt(b[0], b[k]));
            }
        }
        assert(a[0] == b[0]);
        let x = a.drop_first();
        let y = b.drop_first();
        assert forall|e: A| x.contains(e) <==> y.contains(e) by {
            if x.contains(e) {
                let i = choose|i: int| 0 <= i < x.len() && x[i] == e;
                assert(a[i + 1] == e);
                assert(lt(a[0], a[i + 1]));
                assert(a.contains(e));
                let j = choose|j: int| 0 <= j < b.len() && b[j] == e;
                assert(j != 0);
                assert(y[j - 1] == e);
            }
            if y.contains(e) {
                let i = choose|i: int| 0 <= i < y.len() && y[i] == e;
                assert(b[i + 1] == e);
                assert(lt(b[0], b[i + 1]));
                assert(b.contains(e));
                let j = choose|j: int| 0 <= j < a.len() && a[j] == e;
                assert(j != 0);
                assert(x[j - 1] == e);
            }
        }
        assert forall|i: int, j: int|
            #![trigger x[i], x[j]]
            0 <= i < j < x.len() implies lt(x[i], x[j]) by {
            assert(lt(a[i + 1], a[j + 1]));
        }
        assert forall|i: int, j: int|
            #![trigger y[i], y[j]]
            0 <= i < j < y.len() implies lt(y[i], y[j]) by {
            assert(lt(b[i + 1], b[j + 1]));
        }
        sorted_list_is_unique(x, y, lt);
        assert(a =~= seq![a[0]] + x);
        assert(b =~= seq![b[0]] + y);
    }
}

// ---------------------------------------------------------------------------
// Laws
// ---------------------------------------------------------------------------

/// Texts are in order by the first character in which they differ, and a text stands before every
/// longer one that starts with it.
pub proof fn first_difference_decides(
    common: Seq<char>,
    c: char,
    a: Seq<char>,
    d: char,
    b: Seq<char>,
)
    ensures
        c != d ==> (text_before(common + seq![c] + a, common + seq![d] + b) <==> c < d),
        text_before(common, common + seq![c] + a),
        !text_before(common + seq![c] + a, common),
    decreases common.len(),
{
    let x = common + seq![c] + a;
    let y = common + seq![d] + b;
    if common.len() == 0 {
        assert(x[0] == c && y[0] == d);
    } else {
        let rest = common.drop_first();
        first_difference_decides(rest, c, a, d, b);
        assert(x[0] == common[0] && y[0] == common[0]);
        assert(x.drop_first() =~= rest + seq![c] + a);
        assert(y.drop_first() =~= rest + seq![d] + b);
    }
}

} // verus!
