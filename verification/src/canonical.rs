//! The canonical form of destinations: reading and writing are inverse to each other.
use crate::egress;
use crate::egress::Target;
use crate::number;
use crate::text;
use crate::text::CharClass;
use vstd::prelude::*;
use vstd::string::*;

verus! {

broadcast use vstd::string::group_string_axioms;

/// Whether `host` is in canonical form: valid, in lower case, without dots at its ends, and not of
/// the form `name:digits`, which names a host and a port.
pub open spec fn is_canonical_host(host: Seq<char>) -> bool {
    &&& host.len() > 0
    &&& egress::is_valid_host(host)
    &&& no_upper(host)
    &&& host[0] != '.'
    &&& host.last() != '.'
    &&& !egress::ends_in_port(host)
}

/// Whether `t` is in canonical form.
pub open spec fn is_canonical(t: Target) -> bool {
    is_canonical_host(t.host) && t.port != 0
}

/// Whether `s` is free of upper-case ASCII letters.
pub open spec fn no_upper(s: Seq<char>) -> bool {
    forall|i: int| 0 <= i < s.len() ==> !('A' <= #[trigger] s[i] <= 'Z')
}

// ---------------------------------------------------------------------------
// Trimming
// ---------------------------------------------------------------------------

/// Trimming the start leaves a suffix that does not start in the class.
pub proof fn trim_start_shape(s: Seq<char>, class: CharClass)
    ensures
        text::trim_start_of(s, class).len() <= s.len(),
        text::trim_start_of(s, class) == s.skip(s.len() - text::trim_start_of(s, class).len()),
        text::trim_start_of(s, class).len() > 0 ==> !class.holds(
            text::trim_start_of(s, class)[0],
        ),
    decreases s.len(),
{
    if s.len() > 0 && class.holds(s[0]) {
        let t = text::trim_start_of(s, class);
        trim_start_shape(s.drop_first(), class);
        assert(s.drop_first().skip(s.len() - 1 - t.len()) =~= s.skip(s.len() - t.len()));
    } else {
        assert(s.skip(0) =~= s);
    }
}

/// Trimming the end leaves a prefix that does not end in the class.
pub proof fn trim_end_shape(s: Seq<char>, class: CharClass)
    ensures
        text::trim_end_of(s, class).len() <= s.len(),
        text::trim_end_of(s, class) == s.take(text::trim_end_of(s, class).len() as int),
        text::trim_end_of(s, class).len() > 0 ==> !class.holds(text::trim_end_of(s, class).last()),
    decreases s.len(),
{
    if s.len() > 0 && class.holds(s.last()) {
        let t = text::trim_end_of(s, class);
        trim_end_shape(s.drop_last(), class);
        assert(s.drop_last().take(t.len() as int) =~= s.take(t.len() as int));
    } else {
        assert(s.take(s.len() as int) =~= s);
    }
}

/// Trimming leaves a stretch of `s` that neither starts nor ends in the class.
pub proof fn trim_shape(s: Seq<char>, class: CharClass) -> (from: int)
    ensures
        0 <= from,
        from + text::trim_of(s, class).len() <= s.len(),
        text::trim_of(s, class) == s.subrange(from, from + text::trim_of(s, class).len()),
        text::trim_of(s, class).len() > 0 ==> !class.holds(text::trim_of(s, class)[0])
            && !class.holds(text::trim_of(s, class).last()),
{
    let front = text::trim_start_of(s, class);
    let t = text::trim_of(s, class);
    trim_start_shape(s, class);
    trim_end_shape(front, class);
    let from = s.len() - front.len();
    assert(t =~= s.subrange(from, from + t.len()));
    from
}

/// A text that neither starts nor ends in the class is left as it is.
pub proof fn trim_unchanged(s: Seq<char>, class: CharClass)
    requires
        s.len() > 0 ==> !class.holds(s[0]) && !class.holds(s.last()),
    ensures
        text::trim_of(s, class) == s,
{
}

// ---------------------------------------------------------------------------
// Hosts
// ---------------------------------------------------------------------------

proof fn authority_shape(s: Seq<char>)
    ensures
        egress::authority_of(s).len() <= s.len(),
        egress::authority_of(s) == s.take(egress::authority_of(s).len() as int),
{
    let a = text::head_of(s, '/');
    let b = text::head_of(a, '?');
    let c = text::head_of(b, '#');
    text::find_is_first(s, '/');
    text::find_is_first(a, '?');
    text::find_is_first(b, '#');
    assert(c =~= s.take(c.len() as int));
}

proof fn authority_unchanged(s: Seq<char>)
    requires
        !s.contains('/'),
        !s.contains('?'),
        !s.contains('#'),
    ensures
        egress::authority_of(s) == s,
{
    text::find_is_first(s, '/');
    text::find_is_first(s, '?');
    text::find_is_first(s, '#');
}

/// Whether `host` is made of lower-case letters, digits, dots and hyphens.
pub open spec fn is_host_name(host: Seq<char>) -> bool {
    forall|i: int| 0 <= i < host.len() ==> egress::is_name_char(#[trigger] host[i])
}

/// Whether `host` has a colon and is made of lower-case hexadecimal digits, colons and dots.
pub open spec fn is_host_address(host: Seq<char>) -> bool {
    &&& host.contains(':')
    &&& forall|i: int|
        0 <= i < host.len() ==> '0' <= #[trigger] host[i] <= '9' || 'a' <= host[i] <= 'f'
            || host[i] == ':' || host[i] == '.'
}

/// A host that was normalized is not empty, valid, in lower case and without dots at its ends: it
/// is a name or an address.
pub proof fn normalized_shape(value: Seq<char>, host: Seq<char>)
    requires
        egress::normalized_host(value) == Ok::<Seq<char>, egress::EgressError>(host),
    ensures
        host.len() > 0,
        egress::is_valid_host(host),
        no_upper(host),
        host[0] != '.',
        host.last() != '.',
        is_host_name(host) || is_host_address(host),
{
    let lowered = text::lower(text::trim(value));
    assert(no_upper(lowered));
    let a = egress::after_scheme(lowered);
    text::find_seq_is_first(lowered, "://"@);
    assert(no_upper(a));
    let b = egress::after_user_info(a);
    text::rfind_is_last(a, '@');
    assert(no_upper(b));
    let c = egress::authority_of(b);
    authority_shape(b);
    assert(no_upper(c));
    let part = egress::host_part(c)->0;
    assert(no_upper(part)) by {
        if c.len() > 0 && c[0] == '[' {
            text::find_is_first(c.drop_first(), ']');
        } else {
            text::find_is_first(c, ':');
        }
    }
    let from = trim_shape(part, CharClass::One('.'));
    assert(forall|i: int| 0 <= i < host.len() ==> #[trigger] host[i] == part[from + i]);
}

/// A blank text names no host.
pub proof fn blank_names_no_host(value: Seq<char>)
    requires
        text::trim(value).len() == 0,
    ensures
        egress::normalized_host(value) is Err,
{
    let lowered = text::lower(text::trim(value));
    assert(lowered =~= Seq::<char>::empty());
    text::find_seq_is_first(lowered, "://"@);
    reveal_strlit("://");
    let a = egress::after_scheme(lowered);
    text::rfind_is_last(a, '@');
    let b = egress::after_user_info(a);
    authority_shape(b);
    let c = egress::authority_of(b);
    assert(c.len() == 0);
    text::find_is_first(c, ':');
    let part = egress::host_part(c)->0;
    let from = trim_shape(part, CharClass::One('.'));
}

/// Texts that differ in the case of letters only have white space in the same places.
proof fn same_white_space(a: Seq<char>, b: Seq<char>, i: int)
    requires
        text::lower(a) == text::lower(b),
        0 <= i < a.len(),
    ensures
        a.len() == b.len(),
        text::is_white_space(a[i]) == text::is_white_space(b[i]),
{
    assert(text::lower(a).len() == a.len() && text::lower(b).len() == b.len());
    assert(text::lower(a)[i] == text::lower_char(a[i]));
    assert(text::lower(b)[i] == text::lower_char(b[i]));
}

proof fn trim_start_ignores_case(a: Seq<char>, b: Seq<char>)
    requires
        text::lower(a) == text::lower(b),
    ensures
        text::lower(text::trim_start_of(a, CharClass::WhiteSpace)) == text::lower(
            text::trim_start_of(b, CharClass::WhiteSpace),
        ),
    decreases a.len(),
{
    assert(text::lower(a).len() == a.len() && text::lower(b).len() == b.len());
    if a.len() > 0 {
        same_white_space(a, b, 0);
        if text::is_white_space(a[0]) {
            assert(text::lower(a.drop_first()) =~= text::lower(a).drop_first());
            assert(text::lower(b.drop_first()) =~= text::lower(b).drop_first());
            trim_start_ignores_case(a.drop_first(), b.drop_first());
        }
    }
}

proof fn trim_end_ignores_case(a: Seq<char>, b: Seq<char>)
    requires
        text::lower(a) == text::lower(b),
    ensures
        text::lower(text::trim_end_of(a, CharClass::WhiteSpace)) == text::lower(
            text::trim_end_of(b, CharClass::WhiteSpace),
        ),
    decreases a.len(),
{
    assert(text::lower(a).len() == a.len() && text::lower(b).len() == b.len());
    if a.len() > 0 {
        same_white_space(a, b, a.len() - 1);
        if text::is_white_space(a.last()) {
            assert(text::lower(a.drop_last()) =~= text::lower(a).drop_last());
            assert(text::lower(b.drop_last()) =~= text::lower(b).drop_last());
            trim_end_ignores_case(a.drop_last(), b.drop_last());
        }
    }
}

/// Texts that differ in the case of letters only are trimmed alike.
pub proof fn trim_ignores_case(a: Seq<char>, b: Seq<char>)
    requires
        text::lower(a) == text::lower(b),
    ensures
        text::lower(text::trim(a)) == text::lower(text::trim(b)),
{
    trim_start_ignores_case(a, b);
    trim_end_ignores_case(
        text::trim_start_of(a, CharClass::WhiteSpace),
        text::trim_start_of(b, CharClass::WhiteSpace),
    );
}

/// The case of letters does not matter: texts that differ in nothing else name the same host, or
/// none.
pub proof fn letter_case_does_not_matter(a: Seq<char>, b: Seq<char>)
    requires
        text::lower(a) == text::lower(b),
    ensures
        egress::normalized_host(a) == egress::normalized_host(b),
{
    trim_ignores_case(a, b);
}

/// Every ASCII letter of `s` upper-cased.
pub open spec fn upper(s: Seq<char>) -> Seq<char> {
    Seq::new(
        s.len(),
        |i: int|
            if 'a' <= s[i] <= 'z' {
                ((s[i] as u8) - 32) as char
            } else {
                s[i]
            },
    )
}

/// A text in upper case names the same host as the text itself.
pub proof fn upper_case_names_the_same_host(value: Seq<char>)
    ensures
        egress::normalized_host(upper(value)) == egress::normalized_host(value),
{
    assert(text::lower(upper(value)) =~= text::lower(value));
    letter_case_does_not_matter(upper(value), value);
}

/// The steps of normalization up to the port leave a valid lower-case host as it is.
proof fn normalized_up_to_port(host: Seq<char>)
    requires
        host.len() > 0,
        egress::is_valid_host(host),
        no_upper(host),
    ensures
        egress::authority_of(
            egress::after_user_info(egress::after_scheme(text::lower(text::trim(host)))),
        ) == host,
        host[0] != '[',
        !host.contains('/') && !host.contains('?') && !host.contains('#') && !host.contains('@')
            && !host.contains('[') && !host.contains(']'),
{
    let fits = |c: char| egress::is_address_char(c) || egress::is_name_char(c);
    assert(forall|i: int| 0 <= i < host.len() ==> fits(#[trigger] host[i]));
    trim_unchanged(host, CharClass::WhiteSpace);
    assert(text::lower(host) =~= host);
    reveal_strlit("://");
    text::find_seq_is_first(host, "://"@);
    if text::find_seq(host, "://"@) >= 0 {
        let i = text::find_seq(host, "://"@);
        assert(host.subrange(i, i + 3)[1] == "://"@[1]);
        assert(host[i + 1] == '/');
    }
    text::rfind_is_last(host, '@');
    authority_unchanged(host);
}

/// A canonical host normalizes to itself.
pub proof fn canonical_host_is_fixed(host: Seq<char>)
    requires
        is_canonical_host(host),
    ensures
        egress::normalized_host(host) == Ok::<Seq<char>, egress::EgressError>(host),
{
    normalized_up_to_port(host);
    trim_unchanged(host, CharClass::One('.'));
}

/// Normalizing twice gives a canonical host.
pub proof fn normalized_twice_is_canonical(value: Seq<char>, once: Seq<char>, host: Seq<char>)
    requires
        egress::normalized_host(value) == Ok::<Seq<char>, egress::EgressError>(once),
        egress::normalized_host(once) == Ok::<Seq<char>, egress::EgressError>(host),
    ensures
        is_canonical_host(host),
{
    normalized_shape(value, once);
    normalized_shape(once, host);
    normalized_up_to_port(once);
    if egress::ends_in_port(once) {
        text::find_is_first(once, ':');
        let part = once.take(text::find(once, ':'));
        let from = trim_shape(part, CharClass::One('.'));
        text::find_is_first(host, ':');
        if text::find(host, ':') >= 0 {
            let i = text::find(host, ':');
            assert(host[i] == part[from + i]);
            assert(part[from + i] == once[from + i]);
        }
    } else {
        canonical_host_is_fixed(once);
    }
}

// ---------------------------------------------------------------------------
// Targets
// ---------------------------------------------------------------------------

/// Every destination that is read is in canonical form.
pub proof fn parsed_target_is_canonical(value: Seq<char>, t: Target)
    requires
        egress::target_named(value) == Ok::<Target, egress::EgressError>(t),
    ensures
        is_canonical(t),
{
    reveal(egress::target_named);
    let trimmed = text::trim(value);
    match text::split_once_seq(trimmed, "://"@) {
        Some((scheme, rest)) => {
            let kind = egress::kind_named(scheme)->Ok_0;
            placed_target_is_canonical(
                kind,
                egress::authority_of(rest),
                egress::default_port_of(kind),
                t,
            );
        },
        None => {
            placed_target_is_canonical(egress::EgressKind::Https, trimmed, 443, t);
        },
    }
}

/// A target made of a host and a port that were read together is in canonical form.
pub proof fn placed_target_is_canonical(
    kind: egress::EgressKind,
    place: Seq<char>,
    default_port: u16,
    t: Target,
)
    requires
        egress::target_at(kind, egress::host_and_port(place, default_port)) == Ok::<
            Target,
            egress::EgressError,
        >(t),
    ensures
        is_canonical(t),
{
    let (host, port) = egress::host_and_port(place, default_port)->Ok_0;
    let trimmed = text::trim(place);
    if trimmed.len() > 0 && trimmed[0] == '[' {
        let (inner, _) = text::split_once(trimmed.drop_first(), ']')->0;
        normalized_twice_is_canonical(inner, host, t.host);
    } else {
        match text::rsplit_once(trimmed, ':') {
            Some((name, p)) if !name.contains(':') => {
                normalized_twice_is_canonical(name, host, t.host);
            },
            _ => {
                normalized_twice_is_canonical(trimmed, host, t.host);
            },
        }
    }
}

/// The scheme of a kind is made of lower-case letters and names the kind.
pub proof fn kind_text_shape(kind: egress::EgressKind)
    ensures
        egress::kind_text(kind).len() > 0,
        forall|i: int|
            0 <= i < egress::kind_text(kind).len() ==> text::is_lower(
                #[trigger] egress::kind_text(kind)[i],
            ),
        egress::kind_named(egress::kind_text(kind)) == Ok::<egress::EgressKind, egress::EgressError>(
            kind,
        ),
{
    reveal_strlit("http");
    reveal_strlit("https");
    reveal_strlit("tcp");
    reveal_strlit("ssh");
    reveal_strlit("mcp");
    let k = egress::kind_text(kind);
    assert(forall|i: int| 0 <= i < k.len() ==> text::is_lower(#[trigger] k[i]));
    trim_unchanged(k, CharClass::WhiteSpace);
    assert(text::lower(k) =~= k);
    assert("tcp"@[0] == 't' && "ssh"@[0] == 's' && "mcp"@[0] == 'm');
}

/// What follows the scheme in the canonical text of a target.
pub open spec fn place_text(t: Target) -> Seq<char> {
    egress::uri_host(t.host) + seq![':'] + number::decimal(t.port as nat)
}

/// The place in a canonical text is read back, whatever the default port.
pub proof fn place_round_trip(t: Target, default_port: u16)
    requires
        is_canonical(t),
    ensures
        egress::authority_of(place_text(t)) == place_text(t),
        egress::host_and_port(place_text(t), default_port) == Ok::<
            (Seq<char>, u16),
            egress::EgressError,
        >((t.host, t.port)),
{
    let u = egress::uri_host(t.host);
    let d = number::decimal(t.port as nat);
    let rest = place_text(t);
    let m = t.host.len() as int;
    number::decimal_is_digits(t.port as nat);
    number::number_round_trip(t.port as nat);
    normalized_up_to_port(t.host);
    canonical_host_is_fixed(t.host);
    assert(text::is_digit(d[d.len() - 1]));
    let fits = |c: char| egress::is_address_char(c) || egress::is_name_char(c);
    assert(forall|j: int| 0 <= j < t.host.len() ==> fits(#[trigger] t.host[j]));
    assert forall|j: int| 0 <= j < rest.len() implies #[trigger] rest[j] != '/' && rest[j] != '?'
        && rest[j] != '#' by {
        if j < u.len() {
            assert(rest[j] == u[j]);
            if t.host.contains(':') && 0 < j < u.len() - 1 {
                assert(u[j] == t.host[j - 1]);
            }
        } else if j > u.len() {
            assert(rest[j] == d[j - u.len() - 1]);
        }
    }
    authority_unchanged(rest);
    assert(rest[0] == u[0]);
    assert(rest.last() == d.last());
    trim_unchanged(rest, CharClass::WhiteSpace);
    if t.host.contains(':') {
        let inner = rest.drop_first();
        assert(inner[m] == ']');
        assert forall|j: int| 0 <= j < m implies inner[j] != ']' by {
            assert(inner[j] == t.host[j]);
        }
        text::find_from_first(inner, ']', m);
        assert(inner.take(m) =~= t.host);
        let tail = inner.skip(m + 1);
        assert(tail[0] == ':');
        assert(tail.drop_first() =~= d);
    } else {
        assert(rest[m] == ':');
        text::rfind_is_last(rest, ':');
        let r = text::rfind(rest, ':');
        if r > m {
            assert(rest[r] == d[r - m - 1]);
        }
        assert(r == m);
        assert(rest.take(m) =~= t.host);
        assert(rest.skip(m + 1) =~= d);
    }
}

/// The canonical text of a canonical target names that target.
pub proof fn target_text_round_trip(t: Target)
    requires
        is_canonical(t),
    ensures
        egress::target_named(egress::target_text(t)) == Ok::<Target, egress::EgressError>(t),
{
    reveal(egress::target_named);
    let s = egress::target_text(t);
    let k = egress::kind_text(t.kind);
    let d = number::decimal(t.port as nat);
    let rest = place_text(t);
    let n = k.len() as int;
    reveal_strlit("://");
    reveal_strlit(":");
    kind_text_shape(t.kind);
    assert(":"@ =~= seq![':']);
    assert(s =~= k + "://"@ + rest);
    assert(s[0] == k[0] && s.last() == d.last() && text::is_digit(d[d.len() - 1])) by {
        number::decimal_is_digits(t.port as nat);
    }
    trim_unchanged(s, CharClass::WhiteSpace);
    assert(text::split_once_seq(s, "://"@) == Some((k, rest))) by {
        text::find_seq_is_first(s, "://"@);
        assert(s.subrange(n, n + 3) =~= "://"@);
        assert(text::occurs_at(s, "://"@, n));
        let i = text::find_seq(s, "://"@);
        if i < n {
            assert(s.subrange(i, i + 3)[0] == "://"@[0]);
            assert(s[i] == k[i]);
        }
        assert(s.take(n) =~= k);
        assert(s.skip(n + 3) =~= rest);
    }
    place_round_trip(t, egress::default_port_of(t.kind));
    canonical_host_is_fixed(t.host);
}

/// Reading a destination and writing it in canonical form is idempotent: the canonical text of a
/// destination that was read names the same target.
pub proof fn canonicalization_is_idempotent(value: Seq<char>, t: Target)
    requires
        egress::target_named(value) == Ok::<Target, egress::EgressError>(t),
    ensures
        egress::target_named(egress::target_text(t)) == Ok::<Target, egress::EgressError>(t),
{
    parsed_target_is_canonical(value, t);
    target_text_round_trip(t);
}

/// Canonical targets with the same text are the same target.
pub proof fn canonical_text_identifies(a: Target, b: Target)
    requires
        is_canonical(a),
        is_canonical(b),
        egress::target_text(a) == egress::target_text(b),
    ensures
        a == b,
{
    target_text_round_trip(a);
    target_text_round_trip(b);
}

// ---------------------------------------------------------------------------
// What stands behind a place
// ---------------------------------------------------------------------------

/// The authority of a text is its longest prefix without a slash, a question mark or a number sign.
pub proof fn authority_is_the_longest_prefix(s: Seq<char>)
    ensures
        ({
            let a = egress::authority_of(s);
            &&& a.is_prefix_of(s)
            &&& forall|i: int|
                0 <= i < a.len() ==> #[trigger] a[i] != '/' && a[i] != '?' && a[i] != '#'
            &&& a.len() < s.len() ==> s[a.len() as int] == '/' || s[a.len() as int] == '?'
                || s[a.len() as int] == '#'
        }),
{
    let a = text::head_of(s, '/');
    let b = text::head_of(a, '?');
    let c = text::head_of(b, '#');
    text::find_is_first(s, '/');
    text::find_is_first(a, '?');
    text::find_is_first(b, '#');
    authority_shape(s);
    assert forall|i: int| 0 <= i < c.len() implies #[trigger] c[i] != '/' && c[i] != '?' && c[i]
        != '#' by {
        assert(c[i] == b[i] && b[i] == a[i] && a[i] == s[i]);
    }
}

/// A text that starts outside the class keeps its start when its end is trimmed.
pub proof fn trim_end_keeps_start(s: Seq<char>, class: CharClass)
    requires
        s.len() > 0,
        !class.holds(s[0]),
    ensures
        text::trim_end_of(s, class).len() > 0,
        text::trim_end_of(s, class)[0] == s[0],
    decreases s.len(),
{
    if class.holds(s.last()) {
        trim_end_keeps_start(s.drop_last(), class);
    }
}

/// The end of a text is trimmed alike, whatever stands before it.
pub proof fn trim_end_behind(a: Seq<char>, s: Seq<char>, class: CharClass)
    requires
        s.len() > 0,
        !class.holds(s[0]),
    ensures
        text::trim_end_of(a + s, class) == a + text::trim_end_of(s, class),
    decreases s.len(),
{
    assert((a + s).last() == s.last());
    if class.holds(s.last()) {
        assert((a + s).drop_last() =~= a + s.drop_last());
        trim_end_behind(a, s.drop_last(), class);
    }
}

/// A path, a query or a fragment behind the canonical text of a target does not matter: whatever it
/// holds, the text names that target.
pub proof fn what_follows_the_place_is_ignored(t: Target, rest: Seq<char>)
    requires
        is_canonical(t),
        rest.len() > 0,
        rest[0] == '/' || rest[0] == '?' || rest[0] == '#',
    ensures
        egress::target_named(egress::target_text(t) + rest) == Ok::<Target, egress::EgressError>(t),
{
    reveal(egress::target_named);
    let whole = egress::target_text(t) + rest;
    let k = egress::kind_text(t.kind);
    let place = place_text(t);
    let n = k.len() as int;
    reveal_strlit("://");
    reveal_strlit(":");
    kind_text_shape(t.kind);
    assert(":"@ =~= seq![':']);
    assert(egress::target_text(t) =~= k + "://"@ + place);
    let space = CharClass::WhiteSpace;
    trim_end_keeps_start(rest, space);
    let kept = text::trim_end_of(rest, space);
    assert(whole[0] == k[0]);
    assert(text::trim_start_of(whole, space) == whole);
    trim_end_behind(egress::target_text(t), rest, space);
    let s = text::trim(whole);
    assert(s == egress::target_text(t) + kept);
    let behind = place + kept;
    assert(text::split_once_seq(s, "://"@) == Some((k, behind))) by {
        text::find_seq_is_first(s, "://"@);
        assert(s =~= k + "://"@ + behind);
        assert(s.subrange(n, n + 3) =~= "://"@);
        assert(text::occurs_at(s, "://"@, n));
        let i = text::find_seq(s, "://"@);
        if i < n {
            assert(s.subrange(i, i + 3)[0] == "://"@[0]);
            assert(s[i] == k[i]);
        }
        assert(s.take(n) =~= k);
        assert(s.skip(n + 3) =~= behind);
    }
    place_round_trip(t, egress::default_port_of(t.kind));
    assert(egress::authority_of(behind) == place) by {
        authority_is_the_longest_prefix(place);
        authority_is_the_longest_prefix(behind);
        let a = egress::authority_of(behind);
        let m = place.len() as int;
        assert(behind[m] == kept[0]);
        if a.len() > m {
            assert(a[m] == behind[m]);
        }
        if a.len() < m {
            assert(behind[a.len() as int] == place[a.len() as int]);
        }
        assert(a =~= place);
    }
    canonical_host_is_fixed(t.host);
}

} // verus!
