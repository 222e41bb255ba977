//! Splitting text into lines, fields and words.
use crate::text;
use vstd::prelude::*;
use vstd::string::*;

verus! {

broadcast use vstd::string::group_string_axioms;

/// What the strings of a list denote.
pub open spec fn texts(v: Seq<String>) -> Seq<Seq<char>> {
    Seq::new(v.len(), |i: int| v[i]@)
}

/// Adding a string at the end of a list adds what it denotes.
pub proof fn texts_push(v: Seq<String>, s: String)
    ensures
        texts(v.push(s)) == texts(v).push(s@),
{
    assert(texts(v.push(s)) =~= texts(v).push(s@));
}

/// The pieces of `s` between the occurrences of `c`.
pub open spec fn split(s: Seq<char>, c: char) -> Seq<Seq<char>>
    decreases s.len(),
    via split_decreases
{
    match text::split_once(s, c) {
        Some((head, rest)) => seq![head] + split(rest, c),
        None => seq![s],
    }
}

#[via_fn]
proof fn split_decreases(s: Seq<char>, c: char) {
    text::find_is_first(s, c);
}

/// `s` without one carriage return at its end.
pub open spec fn without_cr(s: Seq<char>) -> Seq<char> {
    if s.len() > 0 && s.last() == '\r' {
        s.drop_last()
    } else {
        s
    }
}

/// The lines of `s`. A line ends in `\n` or `\r\n`; the last one may end without either.
pub open spec fn lines(s: Seq<char>) -> Seq<Seq<char>>
    decreases s.len(),
    via lines_decreases
{
    if s.len() == 0 {
        Seq::empty()
    } else {
        match text::split_once(s, '\n') {
            Some((head, rest)) => seq![without_cr(head)] + lines(rest),
            None => seq![s],
        }
    }
}

#[via_fn]
proof fn lines_decreases(s: Seq<char>) {
    text::find_is_first(s, '\n');
}

/// The number of characters before the first white space of `s`.
pub open spec fn word_len(s: Seq<char>) -> nat
    decreases s.len(),
{
    if s.len() == 0 || text::is_white_space(s[0]) {
        0
    } else {
        1 + word_len(s.drop_first())
    }
}

/// The words of `s`: its longest runs of characters other than white space.
pub open spec fn words(s: Seq<char>) -> Seq<Seq<char>>
    decreases s.len(),
    via words_decreases
{
    if s.len() == 0 {
        Seq::empty()
    } else if text::is_white_space(s[0]) {
        words(s.drop_first())
    } else {
        let n = word_len(s) as int;
        seq![s.take(n)] + words(s.skip(n))
    }
}

#[via_fn]
proof fn words_decreases(s: Seq<char>) {
    word_len_bound(s);
}

proof fn word_len_bound(s: Seq<char>)
    ensures
        word_len(s) <= s.len(),
    decreases s.len(),
{
    if s.len() > 0 && !text::is_white_space(s[0]) {
        word_len_bound(s.drop_first());
    }
}

proof fn word_len_is(s: Seq<char>, n: int)
    requires
        0 <= n <= s.len(),
        forall|i: int| 0 <= i < n ==> !text::is_white_space(#[trigger] s[i]),
        n < s.len() ==> text::is_white_space(s[n]),
    ensures
        word_len(s) == n,
    decreases s.len(),
{
    if n > 0 {
        assert(!text::is_white_space(s[0]));
        let t = s.drop_first();
        assert forall|i: int| 0 <= i < n - 1 implies !text::is_white_space(#[trigger] t[i]) by {
            assert(t[i] == s[i + 1]);
        }
        word_len_is(t, n - 1);
    }
}

/// Splits at every `c`.
pub fn split_all(s: &str, c: char) -> (r: Vec<String>)
    ensures
        texts(r@) == split(s@, c),
{
    let mut out: Vec<String> = Vec::new();
    let mut rest: &str = s;
    assert(texts(out@) + split(rest@, c) =~= split(s@, c));
    loop
        invariant_except_break
            texts(out@) + split(rest@, c) == split(s@, c),
        ensures
            texts(out@) == split(s@, c),
        decreases rest@.len(),
    {
        match text::split_at_first(rest, c) {
            Some((head, tail)) => {
                proof {
                    text::find_is_first(rest@, c);
                }
                let piece = head.to_string();
                proof {
                    texts_push(out@, piece);
                    assert(texts(out@).push(piece@) + split(tail@, c) =~= texts(out@) + (
                    seq![head@] + split(tail@, c)));
                }
                out.push(piece);
                rest = tail;
            },
            None => {
                let piece = rest.to_string();
                proof {
                    texts_push(out@, piece);
                    assert(texts(out@).push(piece@) =~= texts(out@) + seq![rest@]);
                }
                out.push(piece);
                break;
            },
        }
    }
    out
}

/// Splits into lines.
pub fn line_list(s: &str) -> (r: Vec<String>)
    ensures
        texts(r@) == lines(s@),
{
    let mut out: Vec<String> = Vec::new();
    let mut rest: &str = s;
    assert(texts(out@) + lines(rest@) =~= lines(s@));
    while !rest.is_empty()
        invariant
            texts(out@) + lines(rest@) == lines(s@),
        decreases rest@.len(),
    {
        match text::split_at_first(rest, '\n') {
            Some((head, tail)) => {
                proof {
                    text::find_is_first(rest@, '\n');
                }
                let chars = text::chars_of(head);
                let n: usize = chars.len();
                let piece = if n > 0 && chars[n - 1] == '\r' {
                    head.substring_char(0, n - 1).to_string()
                } else {
                    head.to_string()
                };
                proof {
                    assert(piece@ == without_cr(head@));
                    texts_push(out@, piece);
                    assert(texts(out@).push(piece@) + lines(tail@) =~= texts(out@) + (
                    seq![piece@] + lines(tail@)));
                }
                out.push(piece);
                rest = tail;
            },
            None => {
                let piece = rest.to_string();
                let tail = rest.substring_char(0, 0);
                proof {
                    texts_push(out@, piece);
                    assert(lines(tail@) == Seq::<Seq<char>>::empty());
                    assert(texts(out@).push(piece@) + lines(tail@) =~= texts(out@) + seq![rest@]);
                }
                out.push(piece);
                rest = tail;
            },
        }
    }
    assert(texts(out@) + lines(rest@) =~= texts(out@));
    out
}

/// Splits into words.
pub fn word_list(s: &str) -> (r: Vec<String>)
    ensures
        texts(r@) == words(s@),
{
    let chars = text::chars_of(s);
    let mut out: Vec<String> = Vec::new();
    let mut i: usize = 0;
    assert(s@.skip(0) == s@);
    assert(texts(out@) + words(s@.skip(0)) =~= words(s@));
    while i < chars.len()
        invariant
            chars@ == s@,
            i <= chars.len(),
            texts(out@) + words(s@.skip(i as int)) == words(s@),
        decreases chars.len() - i,
    {
        let ghost rest = s@.skip(i as int);
        if text::white_space(chars[i]) {
            assert(rest[0] == chars@[i as int]);
            assert(rest.drop_first() == s@.skip(i + 1));
            i = i + 1;
        } else {
            let mut j: usize = i + 1;
            while j < chars.len() && !text::white_space(chars[j])
                invariant
                    chars@ == s@,
                    i < j <= chars.len(),
                    forall|k: int| i <= k < j ==> !text::is_white_space(#[trigger] chars@[k]),
                decreases chars.len() - j,
            {
                j = j + 1;
            }
            let piece = text::string_of(&chars, i, j);
            proof {
                assert forall|k: int| 0 <= k < j - i implies !text::is_white_space(#[trigger] rest[k]) by {
                    assert(rest[k] == chars@[i + k]);
                }
                if j < chars.len() {
                    assert(rest[j - i] == chars@[j as int]);
                }
                word_len_is(rest, j - i);
                assert(rest[0] == chars@[i as int]);
                assert(rest.take(j - i) == piece@);
                assert(rest.skip(j - i) == s@.skip(j as int));
                texts_push(out@, piece);
                assert(texts(out@).push(piece@) + words(s@.skip(j as int)) =~= texts(out@) + (
                seq![piece@] + words(s@.skip(j as int))));
            }
            out.push(piece);
            i = j;
        }
    }
    assert(words(s@.skip(i as int)) == Seq::<Seq<char>>::empty());
    assert(texts(out@) + words(s@.skip(i as int)) =~= texts(out@));
    out
}

/// Tests whether a list of texts holds `key`.
pub fn holds_text(list: &Vec<String>, key: &String) -> (r: bool)
    ensures
        r == texts(list@).contains(key@),
{
    let mut i: usize = 0;
    while i < list.len()
        invariant
            i <= list.len(),
            forall|k: int| 0 <= k < i ==> #[trigger] texts(list@)[k] != key@,
        decreases list.len() - i,
    {
        if list[i] == *key {
            assert(texts(list@)[i as int] == key@);
            return true;
        }
        i = i + 1;
    }
    false
}

// ---------------------------------------------------------------------------
// Laws
// ---------------------------------------------------------------------------

/// A text without the separator is one piece. What stands before the first separator is the first
/// piece, and the others are those of the rest.
pub proof fn pieces_stand_between_separators(head: Seq<char>, rest: Seq<char>, c: char)
    requires
        forall|i: int| 0 <= i < head.len() ==> #[trigger] head[i] != c,
    ensures
        split(head, c) == seq![head],
        split(head + seq![c] + rest, c) == seq![head] + split(rest, c),
{
    let s = head + seq![c] + rest;
    let n = head.len() as int;
    text::find_is_first(head, c);
    assert(s[n] == c);
    assert forall|j: int| 0 <= j < n implies s[j] != c by {
        assert(s[j] == head[j]);
    }
    text::find_from_first(s, c, n);
    assert(s.take(n) =~= head);
    assert(s.skip(n + 1) =~= rest);
}

/// What stands before the first line feed is the first line, without one carriage return at its
/// end, and the others are those of the rest. A text without a line feed is one line, as it is; the
/// empty text has none.
pub proof fn lines_end_in_line_feeds(head: Seq<char>, rest: Seq<char>)
    requires
        forall|i: int| 0 <= i < head.len() ==> #[trigger] head[i] != '\n',
    ensures
        lines(Seq::<char>::empty()) == Seq::<Seq<char>>::empty(),
        head.len() > 0 ==> lines(head) == seq![head],
        lines(head + seq!['\r', '\n'] + rest) == seq![head] + lines(rest),
        head.len() == 0 || head[head.len() - 1] != '\r' ==> lines(head + seq!['\n'] + rest)
            == seq![head] + lines(rest),
{
    let n = head.len() as int;
    text::find_is_first(head, '\n');
    let s = head + seq!['\n'] + rest;
    assert(s[n] == '\n');
    assert forall|j: int| 0 <= j < n implies s[j] != '\n' by {
        assert(s[j] == head[j]);
    }
    text::find_from_first(s, '\n', n);
    assert(s.take(n) =~= head);
    assert(s.skip(n + 1) =~= rest);
    let t = head + seq!['\r', '\n'] + rest;
    assert(t[n] == '\r' && t[n + 1] == '\n');
    assert forall|j: int| 0 <= j < n + 1 implies t[j] != '\n' by {
        if j < n {
            assert(t[j] == head[j]);
        }
    }
    text::find_from_first(t, '\n', n + 1);
    assert(t.take(n + 1).drop_last() =~= head);
    assert(t.skip(n + 2) =~= rest);
}

/// A text without white space is one word. What stands before the first white space is the first
/// word, and the others are those of the rest; white space in front does not matter.
pub proof fn words_stand_between_white_space(word: Seq<char>, c: char, rest: Seq<char>)
    requires
        word.len() > 0,
        forall|i: int| 0 <= i < word.len() ==> !text::is_white_space(#[trigger] word[i]),
        text::is_white_space(c),
    ensures
        words(Seq::<char>::empty()) == Seq::<Seq<char>>::empty(),
        words(word) == seq![word],
        words(seq![c] + rest) == words(rest),
        words(word + seq![c] + rest) == seq![word] + words(rest),
{
    let n = word.len() as int;
    word_len_is(word, n);
    assert(words(Seq::<char>::empty()) == Seq::<Seq<char>>::empty());
    assert(word.take(n) =~= word);
    assert(word.skip(n) =~= Seq::<char>::empty());
    assert(words(word) =~= seq![word]);
    let t = seq![c] + rest;
    assert(t[0] == c);
    assert(t.drop_first() =~= rest);
    let s = word + seq![c] + rest;
    assert(s[n] == c);
    assert forall|i: int| 0 <= i < n implies !text::is_white_space(#[trigger] s[i]) by {
        assert(s[i] == word[i]);
    }
    assert(s[0] == word[0]);
    word_len_is(s, n);
    assert(s.take(n) =~= word);
    assert(s.skip(n) =~= t);
    assert(words(t) == words(rest));
    assert(words(s) == seq![s.take(n)] + words(s.skip(n)));
}

/// The pieces of two texts with a separator between them are the pieces of the one and then those
/// of the other.
pub proof fn pieces_add_up(a: Seq<char>, b: Seq<char>, c: char)
    ensures
        split(a + seq![c] + b, c) == split(a, c) + split(b, c),
    decreases a.len(),
{
    text::find_is_first(a, c);
    match text::split_once(a, c) {
        None => {
            pieces_stand_between_separators(a, b, c);
        },
        Some((head, rest)) => {
            pieces_add_up(rest, b, c);
            let i = text::find(a, c);
            assert(a =~= head + seq![c] + rest);
            assert forall|j: int| 0 <= j < head.len() implies #[trigger] head[j] != c by {
                assert(head[j] == a[j]);
            }
            pieces_stand_between_separators(head, rest + seq![c] + b, c);
            assert(a + seq![c] + b =~= head + seq![c] + (rest + seq![c] + b));
            assert(seq![head] + (split(rest, c) + split(b, c)) =~= seq![head] + split(rest, c)
                + split(b, c));
        },
    }
}

} // verus!
