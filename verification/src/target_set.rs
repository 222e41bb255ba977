//! Sets of targets, and the text file that holds one.
use crate::canonical;
use crate::egress;
use crate::egress::{EgressError, EgressTarget, Target};
use crate::order;
use crate::order::Ordered;
use crate::pieces;
use crate::text;
use vstd::prelude::*;
use vstd::string::*;

verus! {

broadcast use vstd::string::group_string_axioms;

// ---------------------------------------------------------------------------
// Order
// ---------------------------------------------------------------------------

/// The order of targets: by kind, then by host, then by port.
pub open spec fn target_before(a: Target, b: Target) -> bool {
    if a.kind != b.kind {
        egress::kind_rank(a.kind) < egress::kind_rank(b.kind)
    } else if a.host != b.host {
        order::text_before(a.host, b.host)
    } else {
        a.port < b.port
    }
}

/// No target stands before itself, the order is transitive, and of two different targets one
/// stands before the other.
pub proof fn target_order(a: Target, b: Target, c: Target)
    ensures
        !target_before(a, a),
        target_before(a, b) && target_before(b, c) ==> target_before(a, c),
        a == b || target_before(a, b) || target_before(b, a),
        target_before(a, b) ==> !target_before(b, a),
{
    order::text_before_irreflexive(a.host);
    order::text_before_total(a.host, b.host);
    order::text_before_total(a.host, c.host);
    if order::text_before(a.host, b.host) && order::text_before(b.host, c.host) {
        order::text_before_transitive(a.host, b.host, c.host);
        order::text_before_irreflexive(c.host);
    }
    if order::text_before(a.host, b.host) && order::text_before(b.host, a.host) {
        order::text_before_transitive(a.host, b.host, a.host);
    }
    if a.kind == b.kind && a.host == b.host && a.port == b.port {
        assert(a =~= b);
    }
}

impl Ordered for EgressTarget {
    open spec fn before(&self, other: &Self) -> bool {
        target_before(self@, other@)
    }

    proof fn before_irreflexive(a: &Self) {
        target_order(a@, a@, a@);
    }

    proof fn before_transitive(a: &Self, b: &Self, c: &Self) {
        target_order(a@, b@, c@);
    }

    proof fn before_splits(a: &Self, b: &Self, c: &Self) {
        target_order(a@, b@, c@);
        target_order(b@, c@, a@);
        target_order(b@, a@, c@);
    }

    fn is_before(&self, other: &Self) -> (r: bool) {
        if self.kind != other.kind {
            self.kind.rank() < other.kind.rank()
        } else if self.host != other.host {
            order::text_is_before(self.host.as_str(), other.host.as_str())
        } else {
            self.port < other.port
        }
    }
}

// ---------------------------------------------------------------------------
// Lists in order
// ---------------------------------------------------------------------------

/// What the targets of a list denote.
pub open spec fn targets(v: Seq<EgressTarget>) -> Seq<Target> {
    Seq::new(v.len(), |i: int| v[i]@)
}

/// Whether each target of `s` stands before all later ones.
pub open spec fn is_sorted_list(s: Seq<Target>) -> bool {
    forall|i: int, j: int| 0 <= i < j < s.len() ==> target_before(#[trigger] s[i], #[trigger] s[j])
}

/// Whether `s` lists the targets of `set` in order, each of them once.
pub open spec fn lists(s: Seq<Target>, set: Set<Target>) -> bool {
    is_sorted_list(s) && s.to_set() == set
}

/// A set of targets has one list in order.
pub proof fn list_is_unique(a: Seq<Target>, b: Seq<Target>, set: Set<Target>)
    requires
        lists(a, set),
        lists(b, set),
    ensures
        a == b,
{
    let lt = |x: Target, y: Target| target_before(x, y);
    assert forall|x: Target, y: Target| #[trigger] lt(x, y) implies !lt(y, x) by {
        target_order(x, y, x);
    }
    assert forall|x: Target| a.contains(x) <==> b.contains(x) by {
        assert(a.to_set().contains(x) <==> set.contains(x));
        assert(b.to_set().contains(x) <==> set.contains(x));
    }
    assert forall|i: int, j: int|
        #![trigger a[i], a[j]]
        0 <= i < j < a.len() implies lt(a[i], a[j]) by {}
    assert forall|i: int, j: int|
        #![trigger b[i], b[j]]
        0 <= i < j < b.len() implies lt(b[i], b[j]) by {}
    order::sorted_list_is_unique(a, b, lt);
}

/// Sorts targets and drops the repeated ones.
pub fn sorted_targets(v: Vec<EgressTarget>) -> (r: Vec<EgressTarget>)
    ensures
        lists(targets(r@), targets(v@).to_set()),
{
    let ghost from = v@;
    let r = order::sort_unique(v);
    proof {
        let a = targets(r@);
        let b = targets(from);
        assert(is_sorted_list(a)) by {
            assert forall|i: int, j: int| 0 <= i < j < a.len() implies target_before(
                #[trigger] a[i],
                #[trigger] a[j],
            ) by {
                assert(r@[i].before(&r@[j]));
            }
        }
        assert forall|x: Target| a.contains(x) <==> b.contains(x) by {
            if a.contains(x) {
                let i = choose|i: int| 0 <= i < a.len() && a[i] == x;
                assert(r@.contains(r@[i]));
                let k = choose|k: int| 0 <= k < from.len() && from[k] == r@[i];
                assert(b[k] == x);
            }
            if b.contains(x) {
                let k = choose|k: int| 0 <= k < b.len() && b[k] == x;
                assert(from.contains(from[k]));
                let y = choose|y: EgressTarget|
                    #[trigger] r@.contains(y) && order::same_place(from[k], y);
                let i = choose|i: int| 0 <= i < r@.len() && r@[i] == y;
                target_order(from[k]@, y@, y@);
                assert(a[i] == x);
            }
        }
        assert(a.to_set() =~= b.to_set());
    }
    r
}

/// Adds a target to a list in order.
pub fn insert_target(v: &mut Vec<EgressTarget>, t: EgressTarget)
    requires
        is_sorted_list(targets(old(v)@)),
    ensures
        lists(targets(final(v)@), targets(old(v)@).to_set().insert(t@)),
{
    let ghost s = v@;
    let ghost a = targets(s);
    assert(order::is_strictly_sorted(s)) by {
        assert forall|i: int, j: int|
            #![trigger s[i], s[j]]
            0 <= i < j < s.len() implies s[i].before(&s[j]) by {
            assert(target_before(a[i], a[j]));
        }
    }
    let ghost added = t@;
    let ghost item = t;
    let fresh = order::insert_unique(v, t);
    proof {
        let b = targets(v@);
        assert(is_sorted_list(b)) by {
            assert forall|i: int, j: int| 0 <= i < j < b.len() implies target_before(
                #[trigger] b[i],
                #[trigger] b[j],
            ) by {
                assert(v@[i].before(&v@[j]));
            }
        }
        if fresh {
            let p = choose|p: int| 0 <= p <= s.len() && v@ == #[trigger] s.insert(p, item);
            assert(b =~= a.insert(p, added));
            assert forall|x: Target| b.contains(x) <==> a.contains(x) || x == added by {
                if a.contains(x) {
                    let i = choose|i: int| 0 <= i < a.len() && a[i] == x;
                    if i < p {
                        assert(b[i] == x);
                    } else {
                        assert(b[i + 1] == x);
                    }
                }
                assert(b[p] == added);
                if b.contains(x) {
                    let i = choose|i: int| 0 <= i < b.len() && b[i] == x;
                    if i < p {
                        assert(a[i] == x);
                    } else if i > p {
                        assert(a[i - 1] == x);
                    }
                }
            }
        } else {
            let i = choose|i: int|
                #![trigger s[i]]
                0 <= i < s.len() && order::same_place(s[i], item);
            target_order(s[i]@, added, added);
            assert(a[i] == added);
        }
        assert(b.to_set() =~= a.to_set().insert(added));
    }
}

/// Removes a target from a list in order.
pub fn remove_target(v: &mut Vec<EgressTarget>, t: &EgressTarget)
    requires
        is_sorted_list(targets(old(v)@)),
    ensures
        lists(targets(final(v)@), targets(old(v)@).to_set().remove(t@)),
{
    let ghost a = targets(v@);
    let mut i: usize = 0;
    while i < v.len() && !v[i].same(t)
        invariant
            targets(v@) == a,
            i <= v.len(),
            forall|j: int| 0 <= j < i ==> #[trigger] a[j] != t@,
        decreases v.len() - i,
    {
        i = i + 1;
    }
    if i < v.len() {
        proof {
            assert(a[i as int] == t@);
        }
        v.remove(i);
        proof {
            let b = targets(v@);
            assert(b =~= a.remove(i as int));
            assert forall|x: Target| b.contains(x) <==> a.contains(x) && x != t@ by {
                if b.contains(x) {
                    let k = choose|k: int| 0 <= k < b.len() && b[k] == x;
                    if k < i {
                        assert(a[k] == x);
                        target_order(a[k], a[i as int], a[k]);
                        assert(target_before(a[k], a[i as int]));
                    } else {
                        assert(a[k + 1] == x);
                        target_order(a[k + 1], a[i as int], a[k + 1]);
                        assert(target_before(a[i as int], a[k + 1]));
                        target_order(a[i as int], a[k + 1], a[i as int]);
                    }
                }
                if a.contains(x) && x != t@ {
                    let k = choose|k: int| 0 <= k < a.len() && a[k] == x;
                    if k < i {
                        assert(b[k] == x);
                    } else {
                        assert(b[k - 1] == x);
                    }
                }
            }
            assert(b.to_set() =~= a.to_set().remove(t@));
            assert(is_sorted_list(b));
        }
    } else {
        proof {
            assert(!a.contains(t@));
            assert(a.to_set() =~= a.to_set().remove(t@));
        }
    }
}

/// Tests whether a list holds a target.
pub fn contains_target(v: &Vec<EgressTarget>, t: &EgressTarget) -> (r: bool)
    ensures
        r == targets(v@).contains(t@),
{
    let mut i: usize = 0;
    while i < v.len()
        invariant
            i <= v.len(),
            forall|j: int| 0 <= j < i ==> #[trigger] targets(v@)[j] != t@,
        decreases v.len() - i,
    {
        if v[i].same(t) {
            assert(targets(v@)[i as int] == t@);
            return true;
        }
        i = i + 1;
    }
    false
}

/// The texts of the targets of a set.
pub open spec fn target_texts(set: Set<Target>) -> Set<Seq<char>> {
    set.map(|t: Target| egress::target_text(t))
}

/// Writes out targets.
pub fn target_text_list(v: &Vec<EgressTarget>) -> (r: Vec<String>)
    ensures
        pieces::texts(r@) == targets(v@).map_values(
            |t: Target| egress::target_text(t),
        ),
{
    let mut r: Vec<String> = Vec::new();
    let mut i: usize = 0;
    while i < v.len()
        invariant
            i <= v.len(),
            r@.len() == i,
            forall|k: int| 0 <= k < i ==> (#[trigger] r@[k])@ == egress::target_text(v@[k]@),
        decreases v.len() - i,
    {
        r.push(v[i].to_text());
        i = i + 1;
    }
    assert(pieces::texts(r@) =~= targets(v@).map_values(
        |t: Target| egress::target_text(t),
    ));
    r
}

/// The texts of a list of targets are the texts of its set.
pub proof fn texts_of_list(s: Seq<Target>)
    ensures
        s.map_values(|t: Target| egress::target_text(t)).to_set() == target_texts(s.to_set()),
{
    let f = |t: Target| egress::target_text(t);
    let a = s.map_values(f);
    assert forall|x: Seq<char>| a.to_set().contains(x) <==> target_texts(s.to_set()).contains(x) by {
        if a.to_set().contains(x) {
            let i = choose|i: int| 0 <= i < a.len() && a[i] == x;
            assert(s.to_set().contains(s[i]) && x == f(s[i]));
        }
        if target_texts(s.to_set()).contains(x) {
            let t = choose|t: Target| s.to_set().contains(t) && x == f(t);
            let i = choose|i: int| 0 <= i < s.len() && s[i] == t;
            assert(a[i] == x);
        }
    }
    assert(a.to_set() =~= target_texts(s.to_set()));
}

/// Every text of a set of targets is that of one of them.
pub proof fn target_with_text(set: Set<Target>, x: Seq<char>) -> (t: Target)
    requires
        target_texts(set).contains(x),
    ensures
        set.contains(t),
        x == egress::target_text(t),
{
    let f = |t: Target| egress::target_text(t);
    choose|t: Target| set.contains(t) && x == f(t)
}

// ---------------------------------------------------------------------------
// The file
// ---------------------------------------------------------------------------

/// The targets that lines of text name, one on each line that is not blank. The first line that
/// names none decides the error.
pub open spec fn targets_on_lines(lines: Seq<Seq<char>>) -> Result<Seq<Target>, EgressError>
    decreases lines.len(),
{
    if lines.len() == 0 {
        Ok(Seq::empty())
    } else {
        match targets_on_lines(lines.drop_last()) {
            Err(e) => Err(e),
            Ok(earlier) => if text::trim(lines.last()).len() == 0 {
                Ok(earlier)
            } else {
                match egress::target_named(text::trim(lines.last())) {
                    Err(e) => Err(e),
                    Ok(t) => Ok(earlier.push(t)),
                }
            },
        }
    }
}

/// The set of targets that the contents of a target file name.
#[verifier::opaque]
pub open spec fn target_set_of(contents: Seq<char>) -> Result<Set<Target>, EgressError> {
    match targets_on_lines(pieces::lines(contents)) {
        Ok(ts) => Ok(ts.to_set()),
        Err(e) => Err(e),
    }
}

/// The text that lists targets, one on each line.
pub open spec fn target_lines(s: Seq<Target>) -> Seq<char>
    decreases s.len(),
{
    if s.len() == 0 {
        Seq::empty()
    } else {
        target_lines(s.drop_last()) + egress::target_text(s.last()) + seq!['\n']
    }
}

/// An error on a line is the error of every longer list of lines.
proof fn first_error_decides(lines: Seq<Seq<char>>, n: int)
    requires
        0 <= n <= lines.len(),
        targets_on_lines(lines.take(n)) is Err,
    ensures
        targets_on_lines(lines) == targets_on_lines(lines.take(n)),
    decreases lines.len() - n,
{
    if n == lines.len() {
        assert(lines.take(n) =~= lines);
    } else {
        assert(lines.take(n + 1).drop_last() =~= lines.take(n));
        first_error_decides(lines, n + 1);
    }
}

/// Reads the contents of a target file: the targets in order, each of them once.
pub fn parse_allowed_targets(contents: &str) -> (r: Result<Vec<EgressTarget>, EgressError>)
    ensures
        match r {
            Ok(v) => target_set_of(contents@) matches Ok(set) && lists(targets(v@), set),
            Err(e) => target_set_of(contents@) == Err::<Set<Target>, EgressError>(e),
        },
{
    let list = pieces::line_list(contents);
    let ghost ls = pieces::lines(contents@);
    let mut found: Vec<EgressTarget> = Vec::new();
    let mut i: usize = 0;
    assert(ls.take(0) =~= Seq::<Seq<char>>::empty());
    assert(targets(found@) =~= Seq::<Target>::empty());
    while i < list.len()
        invariant
            pieces::texts(list@) == ls,
            ls == pieces::lines(contents@),
            i <= list.len(),
            targets_on_lines(ls.take(i as int)) == Ok::<Seq<Target>, EgressError>(targets(found@)),
        decreases list.len() - i,
    {
        let line = text::trimmed(list[i].as_str());
        proof {
            assert(ls[i as int] == list@[i as int]@);
            assert(ls.take(i + 1).drop_last() =~= ls.take(i as int));
            assert(ls.take(i + 1).last() == ls[i as int]);
        }
        if !line.is_empty() {
            match egress::parse_target_spec(line) {
                Ok(t) => {
                    let ghost before = found@;
                    found.push(t);
                    assert(targets(found@) =~= targets(before).push(t@));
                },
                Err(e) => {
                    proof {
                        reveal(target_set_of);
                        first_error_decides(ls, i + 1);
                    }
                    return Err(e);
                },
            }
        }
        i = i + 1;
    }
    proof {
        reveal(target_set_of);
        assert(ls.take(i as int) =~= ls);
    }
    Ok(sorted_targets(found))
}

/// Writes targets, one on each line.
pub fn serialize_target_set(v: &Vec<EgressTarget>) -> (r: String)
    ensures
        r@ == target_lines(targets(v@)),
{
    let mut out = String::new();
    let mut i: usize = 0;
    let ghost s = targets(v@);
    assert(s.take(0) =~= Seq::<Target>::empty());
    while i < v.len()
        invariant
            s == targets(v@),
            i <= v.len(),
            out@ == target_lines(s.take(i as int)),
        decreases v.len() - i,
    {
        out.append(v[i].to_text().as_str());
        out.push('\n');
        proof {
            assert(s.take(i + 1).drop_last() =~= s.take(i as int));
            assert(out@ =~= target_lines(s.take(i as int)) + egress::target_text(v@[i as int]@)
                + seq!['\n']);
        }
        i = i + 1;
    }
    assert(s.take(i as int) =~= s);
    out
}

// ---------------------------------------------------------------------------
// Laws
// ---------------------------------------------------------------------------

/// A line added at the end of a text of whole lines is the last line of the longer text.
pub proof fn lines_append(a: Seq<char>, line: Seq<char>)
    requires
        a.len() > 0 ==> a.last() == '\n',
        !line.contains('\n'),
        line.len() > 0 ==> line.last() != '\r',
    ensures
        pieces::lines(a + line + seq!['\n']) == pieces::lines(a).push(line),
    decreases a.len(),
{
    let s = a + line + seq!['\n'];
    if a.len() == 0 {
        let n = line.len() as int;
        assert(s[n] == '\n');
        assert forall|j: int| 0 <= j < n implies s[j] != '\n' by {
            assert(s[j] == line[j]);
        }
        text::find_from_first(s, '\n', n);
        assert(s.take(n) =~= line);
        assert(s.skip(n + 1) =~= Seq::<char>::empty());
        assert(pieces::lines(s.skip(n + 1)) == Seq::<Seq<char>>::empty());
        assert(pieces::lines(a) == Seq::<Seq<char>>::empty());
        assert(pieces::lines(s) =~= pieces::lines(a).push(line));
    } else {
        text::find_is_first(a, '\n');
        let i = text::find(a, '\n');
        assert(a[a.len() - 1] == '\n');
        assert(s[i] == '\n');
        assert forall|j: int| 0 <= j < i implies s[j] != '\n' by {
            assert(s[j] == a[j]);
        }
        text::find_from_first(s, '\n', i);
        let rest = a.skip(i + 1);
        if rest.len() > 0 {
            assert(rest.last() == a.last());
        }
        assert(s.take(i) =~= a.take(i));
        assert(s.skip(i + 1) =~= rest + line + seq!['\n']);
        lines_append(rest, line);
        assert(pieces::lines(s) =~= pieces::lines(a).push(line));
    }
}

/// The canonical text of a canonical target stands on one line and is free of white space at its
/// ends.
proof fn target_text_is_a_line(t: Target)
    requires
        canonical::is_canonical(t),
    ensures
        !egress::target_text(t).contains('\n'),
        egress::target_text(t).len() > 0,
        egress::target_text(t).last() != '\r',
        text::trim(egress::target_text(t)) == egress::target_text(t),
{
    let s = egress::target_text(t);
    let k = egress::kind_text(t.kind);
    let u = egress::uri_host(t.host);
    let d = crate::number::decimal(t.port as nat);
    reveal_strlit("http");
    reveal_strlit("https");
    reveal_strlit("tcp");
    reveal_strlit("ssh");
    reveal_strlit("mcp");
    reveal_strlit("://");
    reveal_strlit(":");
    crate::number::decimal_is_digits(t.port as nat);
    assert(text::is_digit(d[d.len() - 1]));
    assert(forall|i: int| 0 <= i < k.len() ==> text::is_lower(#[trigger] k[i]));
    assert(s.last() == d.last());
    assert(s[0] == k[0]);
    canonical::trim_unchanged(s, text::CharClass::WhiteSpace);
    let fits = |c: char| egress::is_address_char(c) || egress::is_name_char(c);
    assert(forall|j: int| 0 <= j < t.host.len() ==> fits(#[trigger] t.host[j]));
    assert forall|i: int| 0 <= i < u.len() implies #[trigger] u[i] != '\n' by {
        if u.len() > t.host.len() && 0 < i < u.len() - 1 {
            assert(u[i] == t.host[i - 1]);
        }
    }
    assert forall|i: int| 0 <= i < s.len() implies s[i] != '\n' by {
        let a = k.len() as int;
        let b = a + 3 + u.len();
        if i < a {
            assert(s[i] == k[i]);
        } else if i < a + 3 {
            assert(s[i] == "://"@[i - a]);
        } else if i < b {
            assert(s[i] == u[i - a - 3]);
        } else if i == b {
            assert(s[i] == ":"@[0]);
        } else {
            assert(s[i] == d[i - b - 1]);
        }
    }
}

/// Reading the file that lists canonical targets gives back those targets.
pub proof fn target_file_round_trip(s: Seq<Target>)
    requires
        forall|i: int| 0 <= i < s.len() ==> canonical::is_canonical(#[trigger] s[i]),
    ensures
        targets_on_lines(pieces::lines(target_lines(s))) == Ok::<Seq<Target>, EgressError>(s),
        target_set_of(target_lines(s)) == Ok::<Set<Target>, EgressError>(s.to_set()),
    decreases s.len(),
{
    reveal(target_set_of);
    if s.len() == 0 {
        assert(pieces::lines(target_lines(s)) =~= Seq::<Seq<char>>::empty());
        assert(s =~= Seq::<Target>::empty());
    } else {
        let a = s.drop_last();
        let t = s.last();
        assert(canonical::is_canonical(s[s.len() - 1]));
        assert forall|i: int| 0 <= i < a.len() implies canonical::is_canonical(#[trigger] a[i]) by {
            assert(a[i] == s[i]);
        }
        target_file_round_trip(a);
        target_text_is_a_line(t);
        canonical::target_text_round_trip(t);
        let line = egress::target_text(t);
        if a.len() > 0 {
            assert(target_lines(a).last() == '\n');
        }
        lines_append(target_lines(a), line);
        let ls = pieces::lines(target_lines(s));
        assert(ls.drop_last() =~= pieces::lines(target_lines(a)));
        assert(a.push(t) =~= s);
    }
}

/// Every target that a file names is in canonical form.
pub proof fn file_targets_are_canonical(lines: Seq<Seq<char>>, s: Seq<Target>)
    requires
        targets_on_lines(lines) == Ok::<Seq<Target>, EgressError>(s),
    ensures
        forall|i: int| 0 <= i < s.len() ==> canonical::is_canonical(#[trigger] s[i]),
    decreases lines.len(),
{
    if lines.len() > 0 {
        let earlier = targets_on_lines(lines.drop_last())->Ok_0;
        file_targets_are_canonical(lines.drop_last(), earlier);
        if text::trim(lines.last()).len() > 0 {
            canonical::parsed_target_is_canonical(text::trim(lines.last()), s.last());
        }
    }
}

/// The lines of a file of targets name its targets: a target is in the set just where a line that is
/// not blank names it, and the file cannot be read just where such a line names none.
pub proof fn lines_name_the_targets(contents: Seq<char>, t: Target)
    ensures
        ({
            let lines = pieces::lines(contents);
            &&& target_set_of(contents) is Err <==> exists|i: int|
                0 <= i < lines.len() && text::trim(#[trigger] lines[i]).len() > 0
                    && egress::target_named(text::trim(lines[i])) is Err
            &&& target_set_of(contents) matches Ok(set) ==> (set.contains(t) <==> exists|i: int|
                0 <= i < lines.len() && text::trim(#[trigger] lines[i]).len() > 0
                    && egress::target_named(text::trim(lines[i])) == Ok::<Target, EgressError>(t))
        }),
{
    reveal(target_set_of);
    let lines = pieces::lines(contents);
    lines_name(lines, t);
}

proof fn lines_name(lines: Seq<Seq<char>>, t: Target)
    ensures
        targets_on_lines(lines) is Err <==> exists|i: int|
            0 <= i < lines.len() && text::trim(#[trigger] lines[i]).len() > 0
                && egress::target_named(text::trim(lines[i])) is Err,
        targets_on_lines(lines) matches Ok(ts) ==> (ts.to_set().contains(t) <==> exists|i: int|
            0 <= i < lines.len() && text::trim(#[trigger] lines[i]).len() > 0
                && egress::target_named(text::trim(lines[i])) == Ok::<Target, EgressError>(t)),
    decreases lines.len(),
{
    if lines.len() > 0 {
        let front = lines.drop_last();
        let last = lines.last();
        let n = lines.len() - 1;
        lines_name(front, t);
        assert(lines[n] == last);
        assert forall|i: int| 0 <= i < front.len() implies #[trigger] front[i] == lines[i] by {}
        if targets_on_lines(front) is Err {
            let i = choose|i: int|
                0 <= i < front.len() && text::trim(#[trigger] front[i]).len() > 0
                    && egress::target_named(text::trim(front[i])) is Err;
            assert(lines[i] == front[i]);
        } else {
            let earlier = targets_on_lines(front)->Ok_0;
            if text::trim(last).len() > 0 && egress::target_named(text::trim(last)) is Ok {
                let u = egress::target_named(text::trim(last))->Ok_0;
                let ts = earlier.push(u);
                assert(ts[earlier.len() as int] == u);
                if earlier.contains(t) {
                    let k = choose|k: int| 0 <= k < earlier.len() && earlier[k] == t;
                    assert(ts[k] == t);
                }
                if ts.contains(t) && t != u {
                    let k = choose|k: int| 0 <= k < ts.len() && ts[k] == t;
                    assert(earlier[k] == t);
                }
            }
            if exists|i: int|
                0 <= i < lines.len() && text::trim(#[trigger] lines[i]).len() > 0
                    && egress::target_named(text::trim(lines[i])) == Ok::<Target, EgressError>(t) {
                let i = choose|i: int|
                    0 <= i < lines.len() && text::trim(#[trigger] lines[i]).len() > 0
                        && egress::target_named(text::trim(lines[i])) == Ok::<Target, EgressError>(
                        t,
                    );
                if i < n {
                    assert(front[i] == lines[i]);
                }
            }
            if earlier.to_set().contains(t) {
                let i = choose|i: int|
                    0 <= i < front.len() && text::trim(#[trigger] front[i]).len() > 0
                        && egress::target_named(text::trim(front[i])) == Ok::<Target, EgressError>(
                        t,
                    );
                assert(lines[i] == front[i]);
            }
            if exists|i: int|
                0 <= i < lines.len() && text::trim(#[trigger] lines[i]).len() > 0
                    && egress::target_named(text::trim(lines[i])) is Err {
                let i = choose|i: int|
                    0 <= i < lines.len() && text::trim(#[trigger] lines[i]).len() > 0
                        && egress::target_named(text::trim(lines[i])) is Err;
                if i < n {
                    assert(front[i] == lines[i]);
                }
            }
        }
    }
}

/// Targets are in order by their kind, `http`, `https`, `tcp`, `ssh` and then `mcp`, then by their
/// host, then by their port.
pub proof fn targets_are_in_order(a: Target, b: Target)
    ensures
        a.kind == b.kind && a.host == b.host ==> (target_before(a, b) <==> a.port < b.port),
        a.kind == b.kind && a.host != b.host ==> (target_before(a, b) <==> order::text_before(
            a.host,
            b.host,
        )),
        a.kind == egress::EgressKind::Http && b.kind != egress::EgressKind::Http ==> target_before(a, b),
        a.kind == egress::EgressKind::Https && (b.kind == egress::EgressKind::Tcp || b.kind == egress::EgressKind::Ssh
            || b.kind == egress::EgressKind::Mcp) ==> target_before(a, b),
        a.kind == egress::EgressKind::Tcp && (b.kind == egress::EgressKind::Ssh || b.kind == egress::EgressKind::Mcp)
            ==> target_before(a, b),
        a.kind == egress::EgressKind::Ssh && b.kind == egress::EgressKind::Mcp ==> target_before(a, b),
{
}

/// A file of targets is made of their canonical texts, each of them followed by a line feed, one
/// behind the other.
pub proof fn targets_are_written_line_by_line(front: Seq<Target>, t: Target)
    ensures
        target_lines(Seq::<Target>::empty()) == Seq::<char>::empty(),
        target_lines(front.push(t)) == target_lines(front) + egress::target_text(t).push('\n'),
{
    assert(front.push(t).drop_last() =~= front);
    assert(target_lines(front.push(t)) =~= target_lines(front) + egress::target_text(t).push('\n'));
}

} // verus!
