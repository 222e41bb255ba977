//! Text primitives over sequences of characters.
//!
//! Every function here works on `&str` and is specified over the character
//! sequence that the string denotes.
use vstd::prelude::*;
use vstd::string::*;

verus! {

broadcast use vstd::string::group_string_axioms;

/// Appends one character to a string.
///
/// Trusted: `String::push` leaves the earlier characters in place and adds `c` at the end.
pub assume_specification[ String::push ](s: &mut String, c: char)
    ensures
        final(s)@ == old(s)@.push(c),
;

/// What an optional text reference holds.
pub open spec fn opt_str(s: Option<&str>) -> Option<Seq<char>> {
    match s {
        Some(s) => Some(s@),
        None => None,
    }
}

// ---------------------------------------------------------------------------
// Character classes
// ---------------------------------------------------------------------------

/// The Unicode `White_Space` property.
pub open spec fn is_white_space(c: char) -> bool {
    ||| '\u{9}' <= c <= '\u{d}'
    ||| c == ' '
    ||| c == '\u{85}'
    ||| c == '\u{a0}'
    ||| c == '\u{1680}'
    ||| '\u{2000}' <= c <= '\u{200a}'
    ||| c == '\u{2028}'
    ||| c == '\u{2029}'
    ||| c == '\u{202f}'
    ||| c == '\u{205f}'
    ||| c == '\u{3000}'
}

/// Tests for Unicode white space.
pub fn white_space(c: char) -> (r: bool)
    ensures
        r == is_white_space(c),
{
    ('\u{9}' <= c && c <= '\u{d}') || c == ' ' || c == '\u{85}' || c == '\u{a0}' || c == '\u{1680}'
        || ('\u{2000}' <= c && c <= '\u{200a}') || c == '\u{2028}' || c == '\u{2029}' || c
        == '\u{202f}' || c == '\u{205f}' || c == '\u{3000}'
}

/// `0` to `9`.
pub open spec fn is_digit(c: char) -> bool {
    '0' <= c <= '9'
}

/// `a` to `z`.
pub open spec fn is_lower(c: char) -> bool {
    'a' <= c <= 'z'
}

/// `0` to `9`, `a` to `f` and `A` to `F`.
pub open spec fn is_hex_digit(c: char) -> bool {
    '0' <= c <= '9' || 'a' <= c <= 'f' || 'A' <= c <= 'F'
}

/// `\r` or `\n`.
pub open spec fn is_line_break(c: char) -> bool {
    c == '\r' || c == '\n'
}

/// The lower-case form of an ASCII letter; any other character is itself.
pub open spec fn lower_char(c: char) -> char {
    if 'A' <= c <= 'Z' {
        ((c as u8) + 32) as char
    } else {
        c
    }
}

/// Lower-cases one ASCII letter.
pub fn to_lower_char(c: char) -> (r: char)
    ensures
        r == lower_char(c),
{
    if 'A' <= c && c <= 'Z' {
        ((c as u8) + 32) as char
    } else {
        c
    }
}

/// Every ASCII letter of `s` lower-cased.
pub open spec fn lower(s: Seq<char>) -> Seq<char> {
    Seq::new(s.len(), |i: int| lower_char(s[i]))
}

/// A set of characters that a scan looks for.
#[derive(Clone, Copy)]
pub enum CharClass {
    /// Unicode white space.
    WhiteSpace,
    /// `\r` and `\n`.
    LineBreak,
    /// `0` to `9`.
    Digit,
    /// One character.
    One(char),
}

impl CharClass {
    /// Whether `c` belongs to the class.
    pub open spec fn holds(self, c: char) -> bool {
        match self {
            CharClass::WhiteSpace => is_white_space(c),
            CharClass::LineBreak => is_line_break(c),
            CharClass::Digit => is_digit(c),
            CharClass::One(d) => c == d,
        }
    }

    /// Tests whether `c` belongs to the class.
    pub fn has(self, c: char) -> (r: bool)
        ensures
            r == self.holds(c),
    {
        match self {
            CharClass::WhiteSpace => white_space(c),
            CharClass::LineBreak => c == '\r' || c == '\n',
            CharClass::Digit => '0' <= c && c <= '9',
            CharClass::One(d) => c == d,
        }
    }
}

// ---------------------------------------------------------------------------
// Conversions
// ---------------------------------------------------------------------------

/// The characters of `s`.
pub fn chars_of(s: &str) -> (r: Vec<char>)
    ensures
        r@ == s@,
{
    let mut v: Vec<char> = Vec::new();
    for c in it: s.chars()
        invariant
            it.seq() == s@,
            v@ == s@.take(it.index()),
    {
        v.push(c);
    }
    v
}

/// A string made of `chars[from..to]`.
pub fn string_of(chars: &Vec<char>, from: usize, to: usize) -> (r: String)
    requires
        from <= to <= chars.len(),
    ensures
        r@ == chars@.subrange(from as int, to as int),
{
    let mut s = String::new();
    let mut i: usize = from;
    while i < to
        invariant
            from <= i <= to <= chars.len(),
            s@ == chars@.subrange(from as int, i as int),
        decreases to - i,
    {
        s.push(chars[i]);
        i = i + 1;
    }
    s
}

/// The length of `s` in UTF-8 bytes.
pub fn utf8_len(s: &str) -> (r: usize)
    ensures
        r == vstd::utf8::encode_utf8(s@).len(),
{
    s.as_bytes().len()
}

/// `s` with its ASCII letters in lower case.
pub fn to_lower(s: &str) -> (r: String)
    ensures
        r@ == lower(s@),
{
    let mut out = String::new();
    for c in it: s.chars()
        invariant
            it.seq() == s@,
            out@ == lower(s@).take(it.index()),
    {
        out.push(to_lower_char(c));
    }
    out
}

/// Tests two strings for equality.
pub fn equals(a: &str, b: &str) -> (r: bool)
    ensures
        r == (a@ == b@),
{
    a.to_owned() == b.to_owned()
}

/// Tests two strings for equality up to the case of ASCII letters.
pub fn equals_ignore_case(a: &str, b: &str) -> (r: bool)
    ensures
        r == (lower(a@) == lower(b@)),
{
    to_lower(a) == to_lower(b)
}

// ---------------------------------------------------------------------------
// Trimming
// ---------------------------------------------------------------------------

/// `s` without its longest prefix of characters in `class`.
pub open spec fn trim_start_of(s: Seq<char>, class: CharClass) -> Seq<char>
    decreases s.len(),
{
    if s.len() > 0 && class.holds(s[0]) {
        trim_start_of(s.drop_first(), class)
    } else {
        s
    }
}

/// `s` without its longest suffix of characters in `class`.
pub open spec fn trim_end_of(s: Seq<char>, class: CharClass) -> Seq<char>
    decreases s.len(),
{
    if s.len() > 0 && class.holds(s.last()) {
        trim_end_of(s.drop_last(), class)
    } else {
        s
    }
}

/// `s` without characters in `class` at either end.
pub open spec fn trim_of(s: Seq<char>, class: CharClass) -> Seq<char> {
    trim_end_of(trim_start_of(s, class), class)
}

/// `s` without white space at either end.
pub open spec fn trim(s: Seq<char>) -> Seq<char> {
    trim_of(s, CharClass::WhiteSpace)
}

/// Removes the longest prefix of characters in `class`.
pub fn start_trimmed(s: &str, class: CharClass) -> (r: &str)
    ensures
        r@ == trim_start_of(s@, class),
{
    let chars = chars_of(s);
    let mut i: usize = 0;
    assert(s@.skip(0) == s@);
    while i < chars.len() && class.has(chars[i])
        invariant
            chars@ == s@,
            i <= chars.len(),
            trim_start_of(s@, class) == trim_start_of(s@.skip(i as int), class),
        decreases chars.len() - i,
    {
        assert(s@.skip(i as int).drop_first() == s@.skip(i + 1));
        i = i + 1;
    }
    s.substring_char(i, chars.len())
}

/// Removes the longest suffix of characters in `class`.
pub fn end_trimmed(s: &str, class: CharClass) -> (r: &str)
    ensures
        r@ == trim_end_of(s@, class),
{
    let chars = chars_of(s);
    let mut i: usize = chars.len();
    assert(s@.take(s@.len() as int) == s@);
    while i > 0 && class.has(chars[i - 1])
        invariant
            chars@ == s@,
            i <= chars.len(),
            trim_end_of(s@, class) == trim_end_of(s@.take(i as int), class),
        decreases i,
    {
        assert(s@.take(i as int).drop_last() == s@.take(i - 1));
        i = i - 1;
    }
    s.substring_char(0, i)
}

/// Removes characters in `class` at both ends.
pub fn trimmed_of(s: &str, class: CharClass) -> (r: &str)
    ensures
        r@ == trim_of(s@, class),
{
    end_trimmed(start_trimmed(s, class), class)
}

/// Removes white space at both ends.
pub fn trimmed(s: &str) -> (r: &str)
    ensures
        r@ == trim(s@),
{
    trimmed_of(s, CharClass::WhiteSpace)
}

// ---------------------------------------------------------------------------
// Searching and splitting
// ---------------------------------------------------------------------------

/// The index of the first `c` in `s`, or -1.
pub open spec fn find(s: Seq<char>, c: char) -> int
    decreases s.len(),
{
    if s.len() == 0 {
        -1
    } else if s[0] == c {
        0
    } else {
        let rest = find(s.drop_first(), c);
        if rest < 0 {
            -1
        } else {
            rest + 1
        }
    }
}

/// The index of the last `c` in `s`, or -1.
pub open spec fn rfind(s: Seq<char>, c: char) -> int
    decreases s.len(),
{
    if s.len() == 0 {
        -1
    } else if s.last() == c {
        s.len() - 1
    } else {
        rfind(s.drop_last(), c)
    }
}

/// Whether `pat` stands in `s` at index `i`.
pub open spec fn occurs_at(s: Seq<char>, pat: Seq<char>, i: int) -> bool {
    0 <= i && i + pat.len() <= s.len() && s.subrange(i, i + pat.len()) == pat
}

/// The index of the first `pat` in `s`, or -1.
pub open spec fn find_seq(s: Seq<char>, pat: Seq<char>) -> int
    decreases s.len(),
{
    if occurs_at(s, pat, 0) {
        0
    } else if s.len() == 0 {
        -1
    } else {
        let rest = find_seq(s.drop_first(), pat);
        if rest < 0 {
            -1
        } else {
            rest + 1
        }
    }
}

/// The parts of `s` before and after its first `c`.
pub open spec fn split_once(s: Seq<char>, c: char) -> Option<(Seq<char>, Seq<char>)> {
    let i = find(s, c);
    if i < 0 {
        None
    } else {
        Some((s.take(i), s.skip(i + 1)))
    }
}

/// The parts of `s` before and after its last `c`.
pub open spec fn rsplit_once(s: Seq<char>, c: char) -> Option<(Seq<char>, Seq<char>)> {
    let i = rfind(s, c);
    if i < 0 {
        None
    } else {
        Some((s.take(i), s.skip(i + 1)))
    }
}

/// The parts of `s` before and after its first `pat`.
pub open spec fn split_once_seq(s: Seq<char>, pat: Seq<char>) -> Option<(Seq<char>, Seq<char>)> {
    let i = find_seq(s, pat);
    if i < 0 {
        None
    } else {
        Some((s.take(i), s.skip(i + pat.len())))
    }
}

/// `s` up to, and without, its first `c`; all of `s` where there is none.
pub open spec fn head_of(s: Seq<char>, c: char) -> Seq<char> {
    match split_once(s, c) {
        Some((head, _)) => head,
        None => s,
    }
}

/// What follows `prefix` in `s`, where `s` starts with it.
pub open spec fn strip_prefix(s: Seq<char>, prefix: Seq<char>) -> Option<Seq<char>> {
    if prefix.is_prefix_of(s) {
        Some(s.skip(prefix.len() as int))
    } else {
        None
    }
}

/// `find` gives the least index at which `c` stands, and -1 exactly where there is none.
pub proof fn find_is_first(s: Seq<char>, c: char)
    ensures
        -1 <= find(s, c) < s.len(),
        find(s, c) >= 0 ==> s[find(s, c)] == c,
        forall|j: int| 0 <= j < s.len() && (j < find(s, c) || find(s, c) < 0) ==> s[j] != c,
    decreases s.len(),
{
    if s.len() > 0 && s[0] != c {
        find_is_first(s.drop_first(), c);
        assert forall|j: int|
            0 <= j < s.len() && (j < find(s, c) || find(s, c) < 0) implies s[j] != c by {
            if j > 0 {
                assert(s[j] == s.drop_first()[j - 1]);
            }
        }
    }
}

/// An index at which `c` stands, with none before it, is what `find` gives.
pub proof fn find_from_first(s: Seq<char>, c: char, i: int)
    requires
        0 <= i < s.len(),
        s[i] == c,
        forall|j: int| 0 <= j < i ==> s[j] != c,
    ensures
        find(s, c) == i,
{
    find_is_first(s, c);
}

/// `rfind` gives the greatest index at which `c` stands, and -1 exactly where there is none.
pub proof fn rfind_is_last(s: Seq<char>, c: char)
    ensures
        -1 <= rfind(s, c) < s.len(),
        rfind(s, c) >= 0 ==> s[rfind(s, c)] == c,
        forall|j: int| rfind(s, c) < j < s.len() && 0 <= j ==> s[j] != c,
    decreases s.len(),
{
    if s.len() > 0 && s.last() != c {
        rfind_is_last(s.drop_last(), c);
        assert forall|j: int| rfind(s, c) < j < s.len() && 0 <= j implies s[j] != c by {
            if j < s.len() - 1 {
                assert(s[j] == s.drop_last()[j]);
            }
        }
    }
}

/// `find_seq` gives the least index at which `pat` stands, and -1 exactly where there is none.
pub proof fn find_seq_is_first(s: Seq<char>, pat: Seq<char>)
    ensures
        -1 <= find_seq(s, pat) <= s.len(),
        find_seq(s, pat) >= 0 ==> occurs_at(s, pat, find_seq(s, pat)),
        forall|j: int|
            0 <= j && (j < find_seq(s, pat) || find_seq(s, pat) < 0) ==> !#[trigger] occurs_at(
                s,
                pat,
                j,
            ),
    decreases s.len(),
{
    if !occurs_at(s, pat, 0) && s.len() > 0 {
        let t = s.drop_first();
        find_seq_is_first(t, pat);
        assert forall|j: int| 0 < j && j + pat.len() <= s.len() implies #[trigger] occurs_at(
            s,
            pat,
            j,
        ) == occurs_at(t, pat, j - 1) by {
            assert(s.subrange(j, j + pat.len()) == t.subrange(j - 1, j - 1 + pat.len()));
        }
        assert forall|j: int|
            0 <= j && (j < find_seq(s, pat) || find_seq(s, pat) < 0) implies !#[trigger] occurs_at(
            s,
            pat,
            j,
        ) by {
            if j > 0 && j + pat.len() <= s.len() {
                assert(occurs_at(s, pat, j) == occurs_at(t, pat, j - 1));
            }
        }
        if find_seq(t, pat) >= 0 {
            let j = find_seq(t, pat) + 1;
            assert(occurs_at(s, pat, j) == occurs_at(t, pat, j - 1));
        }
    }
}

/// The index of the first `c`.
pub fn position(chars: &Vec<char>, c: char) -> (r: Option<usize>)
    ensures
        match r {
            Some(i) => find(chars@, c) == i,
            None => find(chars@, c) < 0,
        },
{
    let mut i: usize = 0;
    while i < chars.len()
        invariant
            i <= chars.len(),
            forall|j: int| 0 <= j < i ==> chars@[j] != c,
        decreases chars.len() - i,
    {
        if chars[i] == c {
            proof {
                find_from_first(chars@, c, i as int);
            }
            return Some(i);
        }
        i = i + 1;
    }
    proof {
        find_is_first(chars@, c);
    }
    None
}

/// Splits at the first `c`.
pub fn split_at_first(s: &str, c: char) -> (r: Option<(&str, &str)>)
    ensures
        match r {
            Some((a, b)) => split_once(s@, c) == Some((a@, b@)),
            None => split_once(s@, c) is None,
        },
{
    let chars = chars_of(s);
    match position(&chars, c) {
        Some(i) => {
            proof {
                find_is_first(s@, c);
            }
            Some((s.substring_char(0, i), s.substring_char(i + 1, chars.len())))
        },
        None => None,
    }
}

/// Splits at the last `c`.
pub fn split_at_last(s: &str, c: char) -> (r: Option<(&str, &str)>)
    ensures
        match r {
            Some((a, b)) => rsplit_once(s@, c) == Some((a@, b@)),
            None => rsplit_once(s@, c) is None,
        },
{
    let chars = chars_of(s);
    let mut i: usize = chars.len();
    while i > 0
        invariant
            chars@ == s@,
            i <= chars.len(),
            forall|j: int| i <= j < chars.len() ==> chars@[j] != c,
        decreases i,
    {
        i = i - 1;
        if chars[i] == c {
            proof {
                rfind_is_last(s@, c);
            }
            return Some((s.substring_char(0, i), s.substring_char(i + 1, chars.len())));
        }
    }
    proof {
        rfind_is_last(s@, c);
    }
    None
}

/// Tests whether `pat` stands in `chars` at index `i`.
fn stands_at(chars: &Vec<char>, pat: &Vec<char>, i: usize) -> (r: bool)
    requires
        i <= chars.len(),
    ensures
        r == occurs_at(chars@, pat@, i as int),
{
    if pat.len() > chars.len() - i {
        return false;
    }
    let mut k: usize = 0;
    while k < pat.len()
        invariant
            i + pat.len() <= chars.len(),
            k <= pat.len(),
            forall|j: int| 0 <= j < k ==> chars@[i + j] == pat@[j],
        decreases pat.len() - k,
    {
        if chars[i + k] != pat[k] {
            assert(chars@.subrange(i as int, i + pat@.len())[k as int] != pat@[k as int]);
            return false;
        }
        k = k + 1;
    }
    assert(chars@.subrange(i as int, i + pat@.len()) == pat@);
    true
}

/// Splits at the first `pat`.
pub fn split_at_str<'a>(s: &'a str, pat: &str) -> (r: Option<(&'a str, &'a str)>)
    ensures
        match r {
            Some((a, b)) => split_once_seq(s@, pat@) == Some((a@, b@)),
            None => split_once_seq(s@, pat@) is None,
        },
{
    let chars = chars_of(s);
    let needle = chars_of(pat);
    let mut i: usize = 0;
    while i < chars.len()
        invariant
            chars@ == s@,
            needle@ == pat@,
            i <= chars.len(),
            forall|j: int| 0 <= j < i ==> !#[trigger] occurs_at(s@, pat@, j),
        decreases chars.len() - i,
    {
        if stands_at(&chars, &needle, i) {
            proof {
                find_seq_is_first(s@, pat@);
            }
            return Some(
                (s.substring_char(0, i), s.substring_char(i + needle.len(), chars.len())),
            );
        }
        i = i + 1;
    }
    proof {
        find_seq_is_first(s@, pat@);
    }
    if needle.len() == 0 {
        assert(s@.subrange(i as int, i as int) == pat@);
        assert(occurs_at(s@, pat@, i as int));
        return Some((s.substring_char(0, i), s.substring_char(i, i)));
    }
    None
}

/// `s` up to, and without, its first `c`.
pub fn before_first(s: &str, c: char) -> (r: &str)
    ensures
        r@ == head_of(s@, c),
{
    match split_at_first(s, c) {
        Some((head, _)) => head,
        None => s,
    }
}

/// Removes `prefix` from the start.
pub fn without_prefix<'a>(s: &'a str, prefix: &str) -> (r: Option<&'a str>)
    ensures
        match r {
            Some(rest) => strip_prefix(s@, prefix@) == Some(rest@),
            None => strip_prefix(s@, prefix@) is None,
        },
{
    let chars = chars_of(s);
    let needle = chars_of(prefix);
    if stands_at(&chars, &needle, 0) {
        assert(prefix@.is_prefix_of(s@)) by {
            assert(prefix@ == s@.subrange(0, prefix@.len() as int));
        }
        Some(s.substring_char(needle.len(), chars.len()))
    } else {
        assert(!prefix@.is_prefix_of(s@));
        None
    }
}

/// Tests whether `c` occurs.
pub fn contains(s: &str, c: char) -> (r: bool)
    ensures
        r == s@.contains(c),
{
    let chars = chars_of(s);
    proof {
        find_is_first(s@, c);
    }
    match position(&chars, c) {
        Some(_) => true,
        None => false,
    }
}

/// Tests whether every character is in `class`.
pub fn all_in(s: &str, class: CharClass) -> (r: bool)
    ensures
        r == (forall|i: int| 0 <= i < s@.len() ==> class.holds(#[trigger] s@[i])),
{
    let chars = chars_of(s);
    let mut i: usize = 0;
    while i < chars.len()
        invariant
            chars@ == s@,
            i <= chars.len(),
            forall|j: int| 0 <= j < i ==> class.holds(#[trigger] s@[j]),
        decreases chars.len() - i,
    {
        if !class.has(chars[i]) {
            assert(!class.holds(s@[i as int]));
            return false;
        }
        i = i + 1;
    }
    true
}

// ---------------------------------------------------------------------------
// Laws
// ---------------------------------------------------------------------------

/// A text is split at the first occurrence of a character into what stands before and behind it,
/// and at the last likewise. A text without the character is not split.
pub proof fn text_is_split_at_a_character(a: Seq<char>, b: Seq<char>, c: char)
    ensures
        !a.contains(c) ==> {
            &&& split_once(a + seq![c] + b, c) == Some((a, b))
            &&& head_of(a + seq![c] + b, c) == a
            &&& split_once(a, c) == None::<(Seq<char>, Seq<char>)>
            &&& rsplit_once(a, c) == None::<(Seq<char>, Seq<char>)>
            &&& head_of(a, c) == a
        },
        !b.contains(c) ==> rsplit_once(a + seq![c] + b, c) == Some((a, b)),
{
    let s = a + seq![c] + b;
    let n = a.len() as int;
    assert(s[n] == c);
    assert(s.take(n) =~= a);
    assert(s.skip(n + 1) =~= b);
    if !a.contains(c) {
        assert forall|j: int| 0 <= j < n implies s[j] != c by {
            assert(s[j] == a[j]);
        }
        find_from_first(s, c, n);
        find_is_first(a, c);
        rfind_is_last(a, c);
    }
    if !b.contains(c) {
        rfind_is_last(s, c);
        let r = rfind(s, c);
        if r > n {
            assert(s[r] == b[r - n - 1]);
        }
    }
}

/// A prefix is taken off where a text starts with it, and only there.
pub proof fn prefix_is_taken_off(prefix: Seq<char>, rest: Seq<char>, s: Seq<char>)
    ensures
        strip_prefix(prefix + rest, prefix) == Some(rest),
        strip_prefix(s, prefix) is Some <==> s.len() >= prefix.len() && s.take(prefix.len() as int)
            == prefix,
{
    let all = prefix + rest;
    assert(all.subrange(0, prefix.len() as int) =~= prefix);
    assert(prefix.is_prefix_of(all));
    assert(all.skip(prefix.len() as int) =~= rest);
    if s.len() >= prefix.len() {
        assert(s.take(prefix.len() as int) =~= s.subrange(0, prefix.len() as int));
    }
}

/// A text is split at the first occurrence of another into what stands before and behind it.
pub proof fn text_is_split_at_a_text(a: Seq<char>, pat: Seq<char>, b: Seq<char>)
    requires
        pat.len() > 0,
        forall|i: int| 0 <= i < a.len() ==> !#[trigger] occurs_at(a + pat, pat, i),
    ensures
        split_once_seq(a + pat + b, pat) == Some((a, b)),
{
    let s = a + pat + b;
    let n = a.len() as int;
    find_seq_is_first(s, pat);
    assert(s.subrange(n, n + pat.len()) =~= pat);
    assert(occurs_at(s, pat, n));
    let i = find_seq(s, pat);
    if i < n {
        assert((a + pat).subrange(i, i + pat.len()) =~= s.subrange(i, i + pat.len()));
        assert(occurs_at(a + pat, pat, i));
    }
    assert(s.take(n) =~= a);
    assert(s.skip(n + pat.len()) =~= b);
}

} // verus!
