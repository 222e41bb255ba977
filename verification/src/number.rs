//! Decimal and hexadecimal numbers as text.
use crate::text;
use vstd::prelude::*;
use vstd::string::*;

verus! {

broadcast use vstd::string::group_string_axioms;

/// The decimal digit for `d`, where `d < 10`.
pub open spec fn digit_char(d: nat) -> char {
    (48 + d) as char
}

/// The value of a decimal digit.
pub open spec fn digit_value(c: char) -> nat {
    (c as nat - 48) as nat
}

/// `n` in decimal, without leading zeros.
pub open spec fn decimal(n: nat) -> Seq<char>
    decreases n,
{
    if n < 10 {
        seq![digit_char(n)]
    } else {
        decimal(n / 10).push(digit_char(n % 10))
    }
}

/// The number that a sequence of decimal digits denotes.
pub open spec fn value_of(s: Seq<char>) -> nat
    decreases s.len(),
{
    if s.len() == 0 {
        0
    } else {
        value_of(s.drop_last()) * 10 + digit_value(s.last())
    }
}

/// Whether `s` consists of decimal digits.
pub open spec fn all_digits(s: Seq<char>) -> bool {
    forall|i: int| 0 <= i < s.len() ==> text::is_digit(#[trigger] s[i])
}

/// The unsigned number that `s` denotes: an optional `+`, then one or more decimal digits.
pub open spec fn parse_number(s: Seq<char>) -> Option<nat> {
    let digits = if s.len() > 0 && s[0] == '+' {
        s.drop_first()
    } else {
        s
    };
    if digits.len() > 0 && all_digits(digits) {
        Some(value_of(digits))
    } else {
        None
    }
}

/// The unsigned number that `s` denotes, if it is at most `max`.
pub open spec fn parse_up_to(s: Seq<char>, max: nat) -> Option<nat> {
    match parse_number(s) {
        Some(n) => if n <= max {
            Some(n)
        } else {
            None
        },
        None => None,
    }
}

/// A decimal numeral consists of digits, has at least one, and does not start with `+`.
pub proof fn decimal_is_digits(n: nat)
    ensures
        all_digits(decimal(n)),
        decimal(n).len() > 0,
        decimal(n)[0] != '+',
    decreases n,
{
    if n >= 10 {
        decimal_is_digits(n / 10);
        assert(all_digits(decimal(n)));
    }
}

/// A decimal numeral denotes the number that it was made from.
pub proof fn decimal_has_value(n: nat)
    ensures
        value_of(decimal(n)) == n,
    decreases n,
{
    if n < 10 {
        let s = seq![digit_char(n)];
        assert(s.drop_last() =~= Seq::<char>::empty());
        assert(value_of(Seq::<char>::empty()) == 0);
    } else {
        decimal_has_value(n / 10);
        assert(decimal(n).drop_last() =~= decimal(n / 10));
    }
}

/// Reading a decimal numeral gives back the number that it was made from.
pub proof fn number_round_trip(n: nat)
    ensures
        parse_number(decimal(n)) == Some(n),
{
    decimal_is_digits(n);
    decimal_has_value(n);
}

proof fn value_of_prefix(s: Seq<char>, i: int)
    requires
        0 <= i <= s.len(),
    ensures
        value_of(s.take(i)) <= value_of(s),
    decreases s.len(),
{
    if i == s.len() {
        assert(s.take(i) == s);
    } else {
        value_of_prefix(s.drop_last(), i);
        assert(s.drop_last().take(i) == s.take(i));
    }
}

/// Reads an unsigned number that is at most `max`.
pub fn read_number(s: &str, max: u64) -> (r: Option<u64>)
    ensures
        match r {
            Some(n) => parse_up_to(s@, max as nat) == Some(n as nat),
            None => parse_up_to(s@, max as nat) is None,
        },
{
    let chars = text::chars_of(s);
    let start: usize = if chars.len() > 0 && chars[0] == '+' {
        1
    } else {
        0
    };
    let ghost digits = s@.skip(start as int);
    proof {
        assert(digits == (if s@.len() > 0 && s@[0] == '+' {
            s@.drop_first()
        } else {
            s@
        }));
    }
    if start == chars.len() {
        return None;
    }
    let mut n: u64 = 0;
    let mut i: usize = start;
    assert(digits.take(0) =~= Seq::<char>::empty());
    while i < chars.len()
        invariant
            chars@ == s@,
            start <= i <= chars.len(),
            start <= 1,
            digits == s@.skip(start as int),
            digits.len() > 0,
            digits == (if s@.len() > 0 && s@[0] == '+' {
                s@.drop_first()
            } else {
                s@
            }),
            forall|j: int| 0 <= j < i - start ==> text::is_digit(#[trigger] digits[j]),
            n == value_of(digits.take(i - start)),
            n <= max,
        decreases chars.len() - i,
    {
        let c = chars[i];
        assert(digits[i - start] == c);
        if c < '0' || c > '9' {
            assert(!all_digits(digits));
            return None;
        }
        let d: u64 = (c as u8 - 48) as u64;
        proof {
            let t = digits.take(i - start + 1);
            assert(t.drop_last() == digits.take(i - start));
            assert(value_of(t) == n * 10 + d);
            value_of_prefix(digits, i - start + 1);
        }
        if n as u128 * 10 + d as u128 > max as u128 {
            return None;
        }
        n = n * 10 + d;
        i = i + 1;
    }
    assert(digits.take(i - start) == digits);
    Some(n)
}

/// Reads a port number.
pub fn read_port(s: &str) -> (r: Option<u16>)
    ensures
        match r {
            Some(n) => parse_up_to(s@, u16::MAX as nat) == Some(n as nat),
            None => parse_up_to(s@, u16::MAX as nat) is None,
        },
{
    match read_number(s, 65535) {
        Some(n) => Some(n as u16),
        None => None,
    }
}

/// Writes `n` in decimal.
pub fn decimal_of(n: u64) -> (r: String)
    ensures
        r@ == decimal(n as nat),
    decreases n,
{
    if n < 10 {
        let mut s = String::new();
        s.push((48 + n as u8) as char);
        assert(s@ =~= seq![digit_char(n as nat)]);
        s
    } else {
        let mut s = decimal_of(n / 10);
        s.push((48 + (n % 10) as u8) as char);
        s
    }
}

/// The lower-case hexadecimal digit for `d`, where `d < 16`.
pub open spec fn hex_char(d: u8) -> char {
    if d < 10 {
        (48 + d) as char
    } else {
        (87 + d) as char
    }
}

/// Each byte as two lower-case hexadecimal digits.
pub open spec fn hex(bytes: Seq<u8>) -> Seq<char> {
    Seq::new(
        2 * bytes.len(),
        |i: int|
            if i % 2 == 0 {
                hex_char(bytes[i / 2] / 16)
            } else {
                hex_char(bytes[i / 2] % 16)
            },
    )
}

fn hex_digit(d: u8) -> (r: char)
    requires
        d < 16,
    ensures
        r == hex_char(d),
{
    if d < 10 {
        (48 + d) as char
    } else {
        (87 + d) as char
    }
}

/// Writes bytes in hexadecimal.
pub fn hex_of(bytes: &Vec<u8>) -> (r: String)
    ensures
        r@ == hex(bytes@),
{
    let mut s = String::new();
    let mut i: usize = 0;
    while i < bytes.len()
        invariant
            i <= bytes.len(),
            s@ == hex(bytes@.take(i as int)),
        decreases bytes.len() - i,
    {
        let ghost before = s@;
        s.push(hex_digit(bytes[i] / 16));
        s.push(hex_digit(bytes[i] % 16));
        proof {
            let t = bytes@.take(i + 1);
            assert forall|k: int| 0 <= k < s@.len() implies s@[k] == hex(t)[k] by {
                if k < 2 * i {
                    assert(before[k] == hex(bytes@.take(i as int))[k]);
                    assert(k / 2 < i);
                } else {
                    assert(k / 2 == i);
                }
            }
            assert(s@ =~= hex(t));
        }
        i = i + 1;
    }
    assert(bytes@.take(i as int) == bytes@);
    s
}

/// A hexadecimal digit is a digit or one of `a` to `f`, and stands for one number.
proof fn hex_char_shape(a: u8, b: u8)
    requires
        a < 16,
        b < 16,
    ensures
        '0' <= hex_char(a) <= '9' || 'a' <= hex_char(a) <= 'f',
        hex_char(a) == hex_char(b) ==> a == b,
{
}

/// Bytes in hexadecimal are made of digits and the letters `a` to `f`.
pub proof fn hex_is_digits(bytes: Seq<u8>)
    ensures
        hex(bytes).len() == 2 * bytes.len(),
        forall|i: int|
            0 <= i < hex(bytes).len() ==> '0' <= #[trigger] hex(bytes)[i] <= '9' || 'a' <= hex(
                bytes,
            )[i] <= 'f',
{
    assert forall|i: int| 0 <= i < hex(bytes).len() implies '0' <= #[trigger] hex(bytes)[i] <= '9'
        || 'a' <= hex(bytes)[i] <= 'f' by {
        hex_char_shape(bytes[i / 2] / 16, 0);
        hex_char_shape(bytes[i / 2] % 16, 0);
    }
}

/// Different bytes are written differently.
pub proof fn hex_identifies(a: Seq<u8>, b: Seq<u8>)
    requires
        hex(a) == hex(b),
    ensures
        a == b,
{
    assert(hex(a).len() == 2 * a.len() && hex(b).len() == 2 * b.len());
    assert forall|k: int| 0 <= k < a.len() implies a[k] == b[k] by {
        assert((2 * k) / 2 == k && (2 * k) % 2 == 0 && (2 * k + 1) / 2 == k && (2 * k + 1) % 2
            == 1);
        assert(hex(a)[2 * k] == hex_char(a[k] / 16) && hex(b)[2 * k] == hex_char(b[k] / 16));
        assert(hex(a)[2 * k + 1] == hex_char(a[k] % 16));
        assert(hex(b)[2 * k + 1] == hex_char(b[k] % 16));
        hex_char_shape(a[k] / 16, b[k] / 16);
        hex_char_shape(a[k] % 16, b[k] % 16);
        assert(a[k] == 16 * (a[k] / 16) + a[k] % 16 && b[k] == 16 * (b[k] / 16) + b[k] % 16);
    }
    assert(a =~= b);
}

/// A byte is written as the digit for its sixteens and the digit for the rest, in order.
pub proof fn bytes_are_written_in_order(bytes: Seq<u8>, k: int)
    requires
        0 <= k < bytes.len(),
    ensures
        ({
            let digits = "0123456789abcdef"@;
            &&& hex(bytes).len() == 2 * bytes.len()
            &&& hex(bytes)[2 * k] == digits[bytes[k] as int / 16]
            &&& hex(bytes)[2 * k + 1] == digits[bytes[k] as int % 16]
        }),
{
    reveal_strlit("0123456789abcdef");
    assert((2 * k) / 2 == k && (2 * k) % 2 == 0 && (2 * k + 1) / 2 == k && (2 * k + 1) % 2 == 1);
    let high = bytes[k] / 16;
    let low = bytes[k] % 16;
    assert(high < 16 && low < 16);
    assert(hex(bytes)[2 * k] == hex_char(high));
    assert(hex(bytes)[2 * k + 1] == hex_char(low));
    hex_digit_is(high);
    hex_digit_is(low);
}

/// The hexadecimal digits, in order of what they stand for.
proof fn hex_digit_is(d: u8)
    requires
        d < 16,
    ensures
        hex_char(d) == "0123456789abcdef"@[d as int],
{
    reveal_strlit("0123456789abcdef");
}

/// A number is read from its digits, with or without a plus sign before them. A text that is empty
/// or holds any other character is none, and neither is a number above the limit.
pub proof fn numbers_are_read_from_digits(n: nat, s: Seq<char>, max: nat)
    ensures
        n <= max ==> parse_up_to(decimal(n), max) == Some(n) && parse_up_to(
            seq!['+'] + decimal(n),
            max,
        ) == Some(n),
        n > max ==> parse_up_to(decimal(n), max) == None::<nat>,
        s.len() == 0 ==> parse_up_to(s, max) == None::<nat>,
        (exists|i: int| 0 <= i < s.len() && !('0' <= #[trigger] s[i] <= '9') && s[i] != '+')
            ==> parse_up_to(s, max) == None::<nat>,
{
    number_round_trip(n);
    decimal_has_value(n);
    decimal_is_digits(n);
    let signed = seq!['+'] + decimal(n);
    assert(signed[0] == '+');
    assert(signed.drop_first() =~= decimal(n));
    if exists|i: int| 0 <= i < s.len() && !('0' <= #[trigger] s[i] <= '9') && s[i] != '+' {
        let i = choose|i: int|
            0 <= i < s.len() && !('0' <= #[trigger] s[i] <= '9') && s[i] != '+';
        if s[0] == '+' {
            assert(s.drop_first()[i - 1] == s[i]);
        } else {
            assert(!text::is_digit(s[i]));
        }
    }
}

} // verus!
