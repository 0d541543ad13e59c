use vstd::prelude::*;
use vstd::string::*;

use crate::error::RequestError;

verus! {

/// The character that writes the decimal digit `d`.
pub open spec fn digit_char(d: int) -> char {
    ((d + 48) as u8) as char
}

/// The canonical decimal text of an octet: no sign, no leading zeros.
pub open spec fn decimal(n: u8) -> Seq<char> {
    if n < 10 {
        seq![digit_char(n as int)]
    } else if n < 100 {
        seq![digit_char(n as int / 10), digit_char(n as int % 10)]
    } else {
        seq![digit_char(n as int / 100), digit_char((n as int / 10) % 10), digit_char(n as int % 10)]
    }
}

/// The dotted-decimal text of a four-octet address.
pub open spec fn dotted(o: Seq<u8>) -> Seq<char> {
    decimal(o[0]) + seq!['.'] + decimal(o[1]) + seq!['.'] + decimal(o[2]) + seq!['.'] + decimal(
        o[3],
    )
}

/// Whether `s` is the dotted-decimal text of some address.
pub open spec fn is_address_text(s: Seq<char>) -> bool {
    exists|o: Seq<u8>| o.len() == 4 && #[trigger] dotted(o) == s
}

/// Writes the decimal digit `d` as a one-character string.
fn digit_text(d: u8) -> (r: &'static str)
    requires
        d < 10,
    ensures
        r@ == seq![digit_char(d as int)],
{
    proof {
        reveal_strlit("0123456789");
    }
    let digits = "0123456789";
    let r = digits.substring_char(d as usize, d as usize + 1);
    assert(r@ =~= seq![digit_char(d as int)]);
    r
}

/// The value of a decimal digit character, if it is one.
fn digit_value(c: char) -> (r: Option<u8>)
    ensures
        r matches Some(d) ==> d < 10 && digit_char(d as int) == c,
        r is None ==> forall|d: int| 0 <= d < 10 ==> digit_char(d) != c,
{
    if '0' <= c && c <= '9' {
        Some((c as u32 - '0' as u32) as u8)
    } else {
        None
    }
}

/// Appends the decimal text of `n` to `s`.
fn push_decimal(s: &mut String, n: u8)
    ensures
        final(s)@ == old(s)@ + decimal(n),
{
    if n >= 100 {
        s.append(digit_text(n / 100));
    }
    if n >= 10 {
        s.append(digit_text((n / 10) % 10));
    }
    s.append(digit_text(n % 10));
    assert(final(s)@ =~= old(s)@ + decimal(n));
}

/// Writes a four-octet address in dotted-decimal form.
pub fn format_ip(ip_parts: &[u8]) -> (r: String)
    requires
        ip_parts@.len() == 4,
    ensures
        r@ == dotted(ip_parts@),
{
    let mut s = String::new();
    push_decimal(&mut s, ip_parts[0]);
    s.append(".");
    push_decimal(&mut s, ip_parts[1]);
    s.append(".");
    push_decimal(&mut s, ip_parts[2]);
    s.append(".");
    push_decimal(&mut s, ip_parts[3]);
    proof {
        reveal_strlit(".");
    }
    assert(s@ =~= dotted(ip_parts@));
    s
}

/// Digit characters are distinct, and none of them is a dot.
proof fn lemma_digit_chars()
    ensures
        forall|a: int, b: int|
            0 <= a < 10 && 0 <= b < 10 && #[trigger] digit_char(a) == #[trigger] digit_char(b)
                ==> a == b,
        forall|a: int| 0 <= a < 10 ==> #[trigger] digit_char(a) != '.',
{
}

/// The digits of an octet's decimal text, by its number of digits.
proof fn lemma_decimal_digits(n: u8)
    ensures
        n < 10 ==> decimal(n).len() == 1,
        10 <= n < 100 ==> decimal(n).len() == 2 && 1 <= n / 10 < 10 && n == 10 * (n / 10) + n
            % 10,
        100 <= n ==> decimal(n).len() == 3 && 1 <= n / 100 < 3 && n == 100 * (n / 100) + 10 * ((
        n / 10) % 10) + n % 10,
        1 <= decimal(n).len() <= 3,
        forall|i: int| 0 <= i < decimal(n).len() ==> #[trigger] decimal(n)[i] != '.',
{
    lemma_digit_chars();
}

/// Reads the octet whose decimal text is `s[from..to]`, if there is one.
fn parse_octet(s: &str, from: usize, to: usize) -> (r: Option<u8>)
    requires
        from <= to <= s@.len(),
    ensures
        match r {
            Some(n) => decimal(n) == s@.subrange(from as int, to as int),
            None => forall|n: u8| #[trigger] decimal(n) != s@.subrange(from as int, to as int),
        },
{
    let ghost field = s@.subrange(from as int, to as int);
    proof {
        lemma_digit_chars();
        assert forall|n: u8| true implies #[trigger] decimal(n).len() >= 1 by {
            lemma_decimal_digits(n);
        }
    }
    let len = to - from;
    if len == 0 || len > 3 {
        proof {
            assert forall|n: u8| #[trigger] decimal(n) != field by {
                lemma_decimal_digits(n);
            }
        }
        return None;
    }
    let d0 = match digit_value(s.get_char(from)) {
        Some(d) => d,
        None => {
            proof {
                assert forall|n: u8| #[trigger] decimal(n) != field by {
                    lemma_decimal_digits(n);
                    if decimal(n) == field {
                        assert(decimal(n)[0] == field[0]);
                    }
                }
            }
            return None;
        },
    };
    if len == 1 {
        assert(decimal(d0) =~= field);
        return Some(d0);
    }
    if d0 == 0 {
        proof {
            assert forall|n: u8| #[trigger] decimal(n) != field by {
                lemma_decimal_digits(n);
                if decimal(n) == field {
                    assert(decimal(n)[0] == field[0]);
                }
            }
        }
        return None;
    }
    let d1 = match digit_value(s.get_char(from + 1)) {
        Some(d) => d,
        None => {
            proof {
                assert forall|n: u8| #[trigger] decimal(n) != field by {
                    lemma_decimal_digits(n);
                    if decimal(n) == field {
                        assert(decimal(n)[1] == field[1]);
                    }
                }
            }
            return None;
        },
    };
    if len == 2 {
        let v = d0 * 10 + d1;
        proof {
            lemma_decimal_digits(v);
            assert(v / 10 == d0 && v % 10 == d1);
            assert(decimal(v) =~= field);
        }
        return Some(v);
    }
    let d2 = match digit_value(s.get_char(from + 2)) {
        Some(d) => d,
        None => {
            proof {
                assert forall|n: u8| #[trigger] decimal(n) != field by {
                    lemma_decimal_digits(n);
                    if decimal(n) == field {
                        assert(decimal(n)[2] == field[2]);
                    }
                }
            }
            return None;
        },
    };
    let v: u32 = d0 as u32 * 100 + d1 as u32 * 10 + d2 as u32;
    if v > 255 {
        proof {
            assert forall|n: u8| #[trigger] decimal(n) != field by {
                lemma_decimal_digits(n);
                if decimal(n) == field {
                    assert(decimal(n)[0] == field[0]);
                    assert(decimal(n)[1] == field[1]);
                    assert(decimal(n)[2] == field[2]);
                    assert(n / 100 == d0 && (n / 10) % 10 == d1 && n % 10 == d2);
                }
            }
        }
        return None;
    }
    let n = v as u8;
    proof {
        lemma_decimal_digits(n);
        assert(n / 100 == d0 && (n / 10) % 10 == d1 && n % 10 == d2);
        assert(decimal(n) =~= field);
    }
    Some(n)
}

/// No character of `s` in `[a, b)` is a dot.
pub open spec fn no_dot(s: Seq<char>, a: int, b: int) -> bool {
    forall|j: int| a <= j < b ==> #[trigger] s[j] != '.'
}

/// `p` is the position of the first dot of `s` at or after `from`.
pub open spec fn first_dot(s: Seq<char>, from: int, p: int) -> bool {
    from <= p < s.len() && s[p] == '.' && no_dot(s, from, p)
}

/// Where the dots and the fields of an address's text lie.
proof fn lemma_layout(o: Seq<u8>)
    requires
        o.len() == 4,
    ensures
        ({
            let s = dotted(o);
            let q0 = decimal(o[0]).len() as int;
            let q1 = q0 + 1 + decimal(o[1]).len();
            let q2 = q1 + 1 + decimal(o[2]).len();
            &&& s.len() == q2 + 1 + decimal(o[3]).len()
            &&& first_dot(s, 0, q0)
            &&& first_dot(s, q0 + 1, q1)
            &&& first_dot(s, q1 + 1, q2)
            &&& no_dot(s, q2 + 1, s.len() as int)
            &&& s.subrange(0, q0) == decimal(o[0])
            &&& s.subrange(q0 + 1, q1) == decimal(o[1])
            &&& s.subrange(q1 + 1, q2) == decimal(o[2])
            &&& s.subrange(q2 + 1, s.len() as int) == decimal(o[3])
        }),
{
    lemma_decimal_digits(o[0]);
    lemma_decimal_digits(o[1]);
    lemma_decimal_digits(o[2]);
    lemma_decimal_digits(o[3]);
    let s = dotted(o);
    let q0 = decimal(o[0]).len() as int;
    let q1 = q0 + 1 + decimal(o[1]).len();
    let q2 = q1 + 1 + decimal(o[2]).len();
    assert(s.subrange(0, q0) =~= decimal(o[0]));
    assert(s.subrange(q0 + 1, q1) =~= decimal(o[1]));
    assert(s.subrange(q1 + 1, q2) =~= decimal(o[2]));
    assert(s.subrange(q2 + 1, s.len() as int) =~= decimal(o[3]));
    assert forall|j: int| 0 <= j < q0 implies #[trigger] s[j] != '.' by {
        assert(s[j] == decimal(o[0])[j]);
    }
    assert forall|j: int| q0 + 1 <= j < q1 implies #[trigger] s[j] != '.' by {
        assert(s[j] == decimal(o[1])[j - q0 - 1]);
    }
    assert forall|j: int| q1 + 1 <= j < q2 implies #[trigger] s[j] != '.' by {
        assert(s[j] == decimal(o[2])[j - q1 - 1]);
    }
    assert forall|j: int| q2 + 1 <= j < s.len() implies #[trigger] s[j] != '.' by {
        assert(s[j] == decimal(o[3])[j - q2 - 1]);
    }
}

/// Two first dots from the same place are the same dot.
proof fn lemma_first_dot_unique(s: Seq<char>, from: int, p: int, q: int)
    requires
        first_dot(s, from, p),
        first_dot(s, from, q),
    ensures
        p == q,
{
    if p < q {
        assert(s[p] != '.');
    } else if q < p {
        assert(s[q] != '.');
    }
}

/// The position of the first dot of `s` at or after `from`, if there is one.
fn find_dot(s: &str, from: usize) -> (r: Option<usize>)
    requires
        from <= s@.len(),
    ensures
        match r {
            Some(p) => first_dot(s@, from as int, p as int),
            None => no_dot(s@, from as int, s@.len() as int),
        },
{
    let n = s.unicode_len();
    let mut i = from;
    while i < n
        invariant
            from <= i <= n,
            n == s@.len(),
            no_dot(s@, from as int, i as int),
        decreases n - i,
    {
        if s.get_char(i) == '.' {
            return Some(i);
        }
        i = i + 1;
    }
    None
}

/// Parses dotted-decimal text into its four octets. Only the canonical form
/// is accepted: four decimal octets with no leading zeros, separated by dots.
pub fn parse_ip(ip: &str) -> (r: Result<Vec<u8>, RequestError>)
    ensures
        match r {
            Ok(v) => v@.len() == 4 && dotted(v@) == ip@,
            Err(e) => e == RequestError::InvalidIpFormat && !is_address_text(ip@),
        },
{
    let n = ip.unicode_len();
    let ghost s = ip@;
    let p0 = match find_dot(ip, 0) {
        Some(p) => p,
        None => {
            proof {
                assert forall|o: Seq<u8>| o.len() == 4 implies #[trigger] dotted(o) != s by {
                    if dotted(o) == s {
                        lemma_layout(o);
                        assert(s[decimal(o[0]).len() as int] == '.');
                    }
                }
            }
            return Err(RequestError::InvalidIpFormat);
        },
    };
    let a = parse_octet(ip, 0, p0);
    let p1 = find_dot(ip, p0 + 1);
    let (p1, b) = match (p1, a) {
        (Some(p1), Some(_)) => (p1, parse_octet(ip, p0 + 1, p1)),
        _ => {
            proof {
                assert forall|o: Seq<u8>| o.len() == 4 implies #[trigger] dotted(o) != s by {
                    if dotted(o) == s {
                        lemma_layout(o);
                        let q0 = decimal(o[0]).len() as int;
                        lemma_first_dot_unique(s, 0, p0 as int, q0);
                        assert(decimal(o[0]) != s.subrange(0, p0 as int) || a is Some);
                        assert(s[q0 + 1 + decimal(o[1]).len()] == '.');
                    }
                }
            }
            return Err(RequestError::InvalidIpFormat);
        },
    };
    let p2 = find_dot(ip, p1 + 1);
    let (p2, c) = match (p2, b) {
        (Some(p2), Some(_)) => (p2, parse_octet(ip, p1 + 1, p2)),
        _ => {
            proof {
                assert forall|o: Seq<u8>| o.len() == 4 implies #[trigger] dotted(o) != s by {
                    if dotted(o) == s {
                        lemma_layout(o);
                        let q0 = decimal(o[0]).len() as int;
                        let q1 = q0 + 1 + decimal(o[1]).len();
                        lemma_first_dot_unique(s, 0, p0 as int, q0);
                        lemma_first_dot_unique(s, q0 + 1, p1 as int, q1);
                        assert(decimal(o[1]) != s.subrange(q0 + 1, q1) || b is Some);
                        assert(s[q1 + 1 + decimal(o[2]).len()] == '.');
                    }
                }
            }
            return Err(RequestError::InvalidIpFormat);
        },
    };
    let d = parse_octet(ip, p2 + 1, n);
    match (a, b, c, d) {
        (Some(a), Some(b), Some(c), Some(d)) => {
            let v = vec![a, b, c, d];
            proof {
                assert(s =~= dotted(v@));
            }
            Ok(v)
        },
        _ => {
            proof {
                assert forall|o: Seq<u8>| o.len() == 4 implies #[trigger] dotted(o) != s by {
                    if dotted(o) == s {
                        lemma_layout(o);
                        let q0 = decimal(o[0]).len() as int;
                        let q1 = q0 + 1 + decimal(o[1]).len();
                        let q2 = q1 + 1 + decimal(o[2]).len();
                        lemma_first_dot_unique(s, 0, p0 as int, q0);
                        lemma_first_dot_unique(s, q0 + 1, p1 as int, q1);
                        lemma_first_dot_unique(s, q1 + 1, p2 as int, q2);
                        assert(decimal(o[2]) != s.subrange(q1 + 1, q2) || c is Some);
                        assert(decimal(o[3]) != s.subrange(q2 + 1, n as int) || d is Some);
                    }
                }
            }
            Err(RequestError::InvalidIpFormat)
        },
    }
}

/// Distinct octets have distinct decimal texts.
proof fn lemma_decimal_injective(a: u8, b: u8)
    requires
        decimal(a) == decimal(b),
    ensures
        a == b,
{
    lemma_digit_chars();
    lemma_decimal_digits(a);
    lemma_decimal_digits(b);
    assert(decimal(a)[0] == decimal(b)[0]);
    if a < 10 {
        assert(b < 10);
        assert(decimal(a) == seq![digit_char(a as int)]);
        assert(decimal(b) == seq![digit_char(b as int)]);
        assert(seq![digit_char(a as int)][0] == digit_char(a as int));
        assert(digit_char(a as int) == digit_char(b as int));
    } else if 10 <= a < 100 {
        assert(10 <= b < 100);
        assert(decimal(a)[1] == decimal(b)[1]);
        assert(a / 10 == b / 10 && a % 10 == b % 10);
    } else {
        assert(100 <= b);
        assert(decimal(a)[1] == decimal(b)[1]);
        assert(decimal(a)[2] == decimal(b)[2]);
        assert(a / 100 == b / 100 && (a / 10) % 10 == (b / 10) % 10 && a % 10 == b % 10);
    }
}

/// Round trip: the text that `format_ip` writes for an address is accepted by
/// `parse_ip`, and the only octets it can read back are the original ones.
pub proof fn lemma_format_parse_round_trip(o: Seq<u8>)
    requires
        o.len() == 4,
    ensures
        is_address_text(dotted(o)),
        forall|v: Seq<u8>| v.len() == 4 && #[trigger] dotted(v) == dotted(o) ==> v == o,
{
    assert forall|v: Seq<u8>| v.len() == 4 && #[trigger] dotted(v) == dotted(o) implies v == o by {
        let s = dotted(o);
        lemma_layout(o);
        lemma_layout(v);
        let q0 = decimal(o[0]).len() as int;
        let q1 = q0 + 1 + decimal(o[1]).len();
        let q2 = q1 + 1 + decimal(o[2]).len();
        let r0 = decimal(v[0]).len() as int;
        let r1 = r0 + 1 + decimal(v[1]).len();
        let r2 = r1 + 1 + decimal(v[2]).len();
        lemma_first_dot_unique(s, 0, q0, r0);
        lemma_first_dot_unique(s, q0 + 1, q1, r1);
        lemma_first_dot_unique(s, q1 + 1, q2, r2);
        lemma_decimal_injective(o[0], v[0]);
        lemma_decimal_injective(o[1], v[1]);
        lemma_decimal_injective(o[2], v[2]);
        lemma_decimal_injective(o[3], v[3]);
        assert(v =~= o);
    }
}

} // verus!
