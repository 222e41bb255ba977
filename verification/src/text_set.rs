//! Sets of texts, and the lines that hold one.
use crate::order;
use crate::order::Ordered;
use crate::pieces;
use vstd::prelude::*;
use vstd::string::*;

verus! {

broadcast use vstd::string::group_string_axioms;

impl Ordered for String {
    open spec fn before(&self, other: &Self) -> bool {
        order::text_before(self@, other@)
    }

    proof fn before_irreflexive(a: &Self) {
        order::text_before_irreflexive(a@);
    }

    proof fn before_transitive(a: &Self, b: &Self, c: &Self) {
        order::text_before_transitive(a@, b@, c@);
    }

    proof fn before_splits(a: &Self, b: &Self, c: &Self) {
        order::text_before_total(a@, b@);
        if order::text_before(b@, a@) {
            order::text_before_transitive(b@, a@, c@);
        }
    }

    fn is_before(&self, other: &Self) -> (r: bool) {
        order::text_is_before(self.as_str(), other.as_str())
    }
}

/// Whether `s` lists the texts of `set` in order, each of them once.
pub open spec fn lists_texts(s: Seq<Seq<char>>, set: Set<Seq<char>>) -> bool {
    &&& forall|i: int, j: int|
        0 <= i < j < s.len() ==> order::text_before(#[trigger] s[i], #[trigger] s[j])
    &&& s.to_set() == set
}

/// A set of texts has one list in order.
pub proof fn text_list_is_unique(a: Seq<Seq<char>>, b: Seq<Seq<char>>, set: Set<Seq<char>>)
    requires
        lists_texts(a, set),
        lists_texts(b, set),
    ensures
        a == b,
{
    let lt = |x: Seq<char>, y: Seq<char>| order::text_before(x, y);
    assert forall|x: Seq<char>, y: Seq<char>| #[trigger] lt(x, y) implies !lt(y, x) by {
        order::text_before_irreflexive(x);
        if lt(y, x) {
            order::text_before_transitive(x, y, x);
        }
    }
    assert forall|x: Seq<char>| a.contains(x) <==> b.contains(x) by {
        assert(a.to_set().contains(x) <==> set.contains(x));
        assert(b.to_set().contains(x) <==> set.contains(x));
    }
    assert forall|i: int, j: int|
        #![trigger a[i], a[j]]
        0 <= i < j < a.len() implies lt(a[i], a[j]) by {}
    assert forall|i: int, j: int|
        #![trigger b[i], b[j]]
        0 <= i < j < b.len() implies lt(b[i], b[j]) by {}
    order::sorted_list_is_unique(a, b, lt);
}

/// Sorts texts and drops the repeated ones.
pub fn sorted_texts(v: Vec<String>) -> (r: Vec<String>)
    ensures
        lists_texts(pieces::texts(r@), pieces::texts(v@).to_set()),
{
    let ghost from = v@;
    let r = order::sort_unique(v);
    proof {
        let a = pieces::texts(r@);
        let b = pieces::texts(from);
        assert forall|i: int, j: int| 0 <= i < j < a.len() implies order::text_before(
            #[trigger] a[i],
            #[trigger] a[j],
        ) by {
            assert(r@[i].before(&r@[j]));
        }
        assert forall|x: Seq<char>| a.contains(x) <==> b.contains(x) by {
            if a.contains(x) {
                let i = choose|i: int| 0 <= i < a.len() && a[i] == x;
                assert(r@.contains(r@[i]));
                let k = choose|k: int| 0 <= k < from.len() && from[k] == r@[i];
                assert(b[k] == x);
            }
            if b.contains(x) {
                let k = choose|k: int| 0 <= k < b.len() && b[k] == x;
                assert(from.contains(from[k]));
                let y = choose|y: String|
                    #[trigger] r@.contains(y) && order::same_place(from[k], y);
                let i = choose|i: int| 0 <= i < r@.len() && r@[i] == y;
                order::text_before_total(from[k]@, y@);
                assert(a[i] == x);
            }
        }
        assert(a.to_set() =~= b.to_set());
    }
    r
}

/// Adds a text to a list in order.
pub fn insert_text(v: Vec<String>, text: String) -> (r: Vec<String>)
    ensures
        lists_texts(pieces::texts(r@), pieces::texts(v@).to_set().insert(text@)),
{
    let ghost a = pieces::texts(v@);
    let ghost added = text@;
    let mut all = v;
    all.push(text);
    proof {
        let b = pieces::texts(all@);
        assert(b =~= a.push(added));
        assert forall|x: Seq<char>| b.contains(x) <==> a.contains(x) || x == added by {
            if a.contains(x) {
                let i = choose|i: int| 0 <= i < a.len() && a[i] == x;
                assert(b[i] == x);
            }
            assert(b[a.len() as int] == added);
        }
        assert(b.to_set() =~= a.to_set().insert(added));
    }
    sorted_texts(all)
}

/// Removes a text from a list in order.
pub fn remove_text(v: Vec<String>, text: &String) -> (r: Vec<String>)
    ensures
        lists_texts(pieces::texts(r@), pieces::texts(v@).to_set().remove(text@)),
{
    let ghost a = pieces::texts(v@);
    let mut kept: Vec<String> = Vec::new();
    let mut i: usize = 0;
    while i < v.len()
        invariant
            a == pieces::texts(v@),
            i <= v.len(),
            forall|k: int|
                0 <= k < i && #[trigger] a[k] != text@ ==> pieces::texts(kept@).contains(a[k]),
            forall|k: int|
                0 <= k < kept@.len() ==> #[trigger] pieces::texts(kept@)[k] != text@ && a.contains(
                    pieces::texts(kept@)[k],
                ),
        decreases v.len() - i,
    {
        if v[i] != *text {
            let ghost before = pieces::texts(kept@);
            kept.push(v[i].clone());
            proof {
                let after = pieces::texts(kept@);
                assert(after =~= before.push(a[i as int]));
                assert(a.contains(a[i as int]));
                assert(after[before.len() as int] == a[i as int]);
                assert forall|k: int| 0 <= k < i + 1 && #[trigger] a[k] != text@ implies
                    after.contains(a[k]) by {
                    if k < i {
                        let p = choose|p: int| 0 <= p < before.len() && before[p] == a[k];
                        assert(after[p] == a[k]);
                    }
                }
            }
        }
        i = i + 1;
    }
    proof {
        let b = pieces::texts(kept@);
        assert forall|x: Seq<char>| b.contains(x) <==> a.contains(x) && x != text@ by {
            if b.contains(x) {
                let k = choose|k: int| 0 <= k < b.len() && b[k] == x;
                assert(b[k] != text@);
            }
        }
        assert(b.to_set() =~= a.to_set().remove(text@));
    }
    sorted_texts(kept)
}

/// The text that holds each text of a list on a line.
pub open spec fn text_lines(s: Seq<Seq<char>>) -> Seq<char>
    decreases s.len(),
{
    if s.len() == 0 {
        Seq::empty()
    } else {
        text_lines(s.drop_last()) + s.last() + seq!['\n']
    }
}

/// Whether `contents` holds the texts of `set` in order, each of them on a line.
pub open spec fn holds_texts(contents: Seq<char>, set: Set<Seq<char>>) -> bool {
    exists|s: Seq<Seq<char>>| #[trigger] lists_texts(s, set) && contents == text_lines(s)
}

/// Writes texts, one on each line.
pub fn write_lines(v: &Vec<String>) -> (r: String)
    ensures
        r@ == text_lines(pieces::texts(v@)),
{
    let mut out = String::new();
    let mut i: usize = 0;
    let ghost s = pieces::texts(v@);
    assert(s.take(0) =~= Seq::<Seq<char>>::empty());
    while i < v.len()
        invariant
            s == pieces::texts(v@),
            i <= v.len(),
            out@ == text_lines(s.take(i as int)),
        decreases v.len() - i,
    {
        out.append(v[i].as_str());
        out.push('\n');
        proof {
            assert(s.take(i + 1).drop_last() =~= s.take(i as int));
            assert(s.take(i + 1).last() == v@[i as int]@);
            assert(out@ =~= text_lines(s.take(i as int)) + v@[i as int]@ + seq!['\n']);
        }
        i = i + 1;
    }
    assert(s.take(i as int) =~= s);
    out
}

/// A file of texts is made of the texts, each of them followed by a line feed, one behind the other.
pub proof fn texts_are_written_line_by_line(front: Seq<Seq<char>>, s: Seq<char>)
    ensures
        text_lines(Seq::<Seq<char>>::empty()) == Seq::<char>::empty(),
        text_lines(front.push(s)) == text_lines(front) + s.push('\n'),
{
    assert(front.push(s).drop_last() =~= front);
    assert(text_lines(front.push(s)) =~= text_lines(front) + s.push('\n'));
}

} // verus!
