//! Parsing of `A.B.C.D/P` notation.
//!
//! The grammar: four groups of one to three decimal digits separated by `.`,
//! then `/` and one or two decimal digits, and nothing else. A string that
//! follows it but holds an octet above 255 or a prefix length above 32 is out
//! of range; any other string is malformed.
use vstd::prelude::*;
use vstd::string::*;
use vstd::utf8::is_ascii_chars;

use crate::addr::is_octets;
use crate::text::{decimal, digit_char, dotted_decimal, lemma_decimal_len};

verus! {

/// Why a string is not a valid address with a prefix length.
#[derive(Debug, Clone, Copy, PartialEq, Eq)]
pub enum ParseError {
    /// The string does not follow the grammar.
    Malformed,
    /// It follows the grammar, but an octet is above 255 or the prefix length above 32.
    OutOfRange,
}

/// An ASCII decimal digit.
pub open spec fn is_digit(c: char) -> bool {
    '0' <= c && c <= '9'
}

/// The value of a decimal digit.
pub open spec fn digit_value(c: char) -> nat {
    (c as int - '0' as int) as nat
}

/// How many decimal digits `s` starts with.
pub open spec fn digit_run(s: Seq<char>) -> nat
    decreases s.len(),
{
    if s.len() > 0 && is_digit(s[0]) {
        1 + digit_run(s.drop_first())
    } else {
        0
    }
}

/// The number that a string of decimal digits denotes.
pub open spec fn decimal_value(s: Seq<char>) -> nat
    decreases s.len(),
{
    if s.len() == 0 {
        0
    } else {
        decimal_value(s.drop_last()) * 10 + digit_value(s.last())
    }
}

/// How many digits field `k` may have: three for an octet, two for the prefix length.
pub open spec fn max_width(k: nat) -> nat {
    if k < 4 {
        3
    } else {
        2
    }
}

/// The character after field `k`: `.` after the first three octets, `/` after the fourth.
pub open spec fn separator(k: nat) -> char {
    if k < 3 {
        '.'
    } else {
        '/'
    }
}

/// The largest value of field `k`: 255 for an octet, 32 for the prefix length.
pub open spec fn limit(k: nat) -> nat {
    if k < 4 {
        255
    } else {
        32
    }
}

/// The values of fields `k` to 4 read from `s`, or `None` where `s` does not
/// follow the grammar from field `k` on.
pub open spec fn fields_from(s: Seq<char>, k: nat) -> Option<Seq<nat>>
    decreases 5 - k,
{
    let n = digit_run(s);
    let v = decimal_value(s.take(n as int));
    if k > 4 || n == 0 || n > max_width(k) {
        None
    } else if k == 4 {
        if n == s.len() {
            Some(seq![v])
        } else {
            None
        }
    } else if n < s.len() && s[n as int] == separator(k) {
        match fields_from(s.skip(n as int + 1), k + 1) {
            Some(rest) => Some(seq![v] + rest),
            None => None,
        }
    } else {
        None
    }
}

/// The four octets and the prefix length that `s` spells, or `None` where it
/// does not follow the grammar.
pub open spec fn cidr_fields(s: Seq<char>) -> Option<Seq<nat>> {
    fields_from(s, 0)
}

/// Five fields, each within its limit.
pub open spec fn in_range(f: Seq<nat>) -> bool {
    f.len() == 5 && forall|k: int| 0 <= k < 5 ==> #[trigger] f[k] <= limit(k as nat)
}

/// The values of a vector of `u32`, as natural numbers.
pub open spec fn nats(v: Seq<u32>) -> Seq<nat> {
    v.map_values(|x: u32| x as nat)
}

/// `p` followed by the fields in `o`, if there are any.
pub open spec fn prepend(p: Seq<u32>, o: Option<Seq<nat>>) -> Option<Seq<nat>> {
    match o {
        Some(r) => Some(nats(p) + r),
        None => None,
    }
}

proof fn lemma_prepend_nothing(p: Seq<u32>, o: Option<Seq<nat>>)
    requires
        p.len() == 0,
    ensures
        prepend(p, o) == o,
{
    if let Some(r) = o {
        assert(nats(p) + r =~= r);
    }
}

proof fn lemma_digit_run_exact(t: Seq<char>, m: nat)
    requires
        m <= t.len(),
        forall|i: int| 0 <= i < m ==> is_digit(#[trigger] t[i]),
        m == t.len() || !is_digit(t[m as int]),
    ensures
        digit_run(t) == m,
    decreases m,
{
    if m > 0 {
        lemma_digit_run_exact(t.drop_first(), (m - 1) as nat);
    }
}

proof fn lemma_digit_run_at_least(t: Seq<char>, m: nat)
    requires
        m <= t.len(),
        forall|i: int| 0 <= i < m ==> is_digit(#[trigger] t[i]),
    ensures
        digit_run(t) >= m,
    decreases m,
{
    if m > 0 {
        lemma_digit_run_at_least(t.drop_first(), (m - 1) as nat);
    }
}

proof fn lemma_digit_run_digits(t: Seq<char>)
    ensures
        digit_run(t) <= t.len(),
        forall|i: int| 0 <= i < digit_run(t) ==> is_digit(#[trigger] t[i]),
    decreases t.len(),
{
    if t.len() > 0 && is_digit(t[0]) {
        lemma_digit_run_digits(t.drop_first());
        assert forall|i: int| 0 <= i < digit_run(t) implies is_digit(#[trigger] t[i]) by {
            if i > 0 {
                assert(t[i] == t.drop_first()[i - 1]);
            }
        }
    }
}

/// A string that follows the grammar from field `k` on is ASCII and yields one
/// value for each field left.
proof fn lemma_fields_shape(s: Seq<char>, k: nat)
    requires
        fields_from(s, k) is Some,
    ensures
        is_ascii_chars(s),
        fields_from(s, k)->Some_0.len() == 5 - k,
    decreases 5 - k,
{
    let n = digit_run(s);
    lemma_digit_run_digits(s);
    if k < 4 {
        let rest = s.skip(n as int + 1);
        lemma_fields_shape(rest, k + 1);
        assert forall|i: int| 0 <= i < s.len() implies '\0' <= #[trigger] s[i] <= '\u{7f}' by {
            if i > n {
                assert(s[i] == rest[i - n - 1]);
            }
        }
    }
}

/// Whether byte `b` is an ASCII decimal digit, read as the character `c` it encodes.
proof fn lemma_ascii_byte(c: char, b: u8)
    requires
        '\0' <= c <= '\u{7f}',
        b == c as u8,
    ensures
        b as int == c as int,
        is_digit(c) <==> 48 <= b <= 57,
        digit_value(c) == b - 48 || !is_digit(c),
        c == '.' <==> b == 46,
        c == '/' <==> b == 47,
{
}

proof fn lemma_digit_char(d: nat)
    requires
        d < 10,
    ensures
        is_digit(digit_char(d)),
        digit_value(digit_char(d)) == d,
{
}

/// The decimal form of a number up to 999 is all digits and denotes that number.
proof fn lemma_decimal_value(n: nat)
    requires
        n <= 999,
    ensures
        forall|i: int| 0 <= i < decimal(n).len() ==> is_digit(#[trigger] decimal(n)[i]),
        decimal_value(decimal(n)) == n,
{
    lemma_decimal_len(n);
    reveal_with_fuel(decimal_value, 4);
    lemma_digit_char(n % 10);
    if n >= 100 {
        lemma_digit_char(n / 100);
        lemma_digit_char((n / 10) % 10);
        let d = decimal(n);
        assert(d.drop_last() =~= seq![digit_char(n / 100), digit_char((n / 10) % 10)]);
        assert(d.drop_last().drop_last() =~= seq![digit_char(n / 100)]);
        assert(d.drop_last().drop_last().drop_last() =~= Seq::<char>::empty());
        assert((n / 100) * 100 + ((n / 10) % 10) * 10 + n % 10 == n);
    } else if n >= 10 {
        lemma_digit_char(n / 10);
        let d = decimal(n);
        assert(d.drop_last() =~= seq![digit_char(n / 10)]);
        assert(d.drop_last().drop_last() =~= Seq::<char>::empty());
    } else {
        assert(decimal(n).drop_last() =~= Seq::<char>::empty());
    }
}

/// One field written in decimal, then the separator that ends it, reads back
/// as that value in front of the fields that follow.
proof fn lemma_field_step(d: nat, k: nat, rest: Seq<char>)
    requires
        k < 4,
        d <= 999,
        decimal(d).len() <= max_width(k),
    ensures
        fields_from(decimal(d) + seq![separator(k)] + rest, k) == match fields_from(rest, k + 1) {
            Some(r) => Some(seq![d] + r),
            None => None,
        },
{
    let w = decimal(d);
    let s = w + seq![separator(k)] + rest;
    lemma_decimal_value(d);
    lemma_decimal_len(d);
    assert forall|i: int| 0 <= i < w.len() implies is_digit(#[trigger] s[i]) by {
        assert(s[i] == w[i]);
    }
    assert(s[w.len() as int] == separator(k));
    lemma_digit_run_exact(s, w.len());
    assert(s.take(w.len() as int) =~= w);
    assert(s.skip(w.len() as int + 1) =~= rest);
}

/// The dotted-decimal form of any address, followed by `/` and the decimal
/// form of a prefix length, reads back as the same four octets and the same
/// prefix length, all within range.
pub proof fn lemma_round_trip(o: Seq<u32>, p: u32)
    requires
        is_octets(o),
        p <= 32,
    ensures
        cidr_fields(dotted_decimal(o) + seq!['/'] + decimal(p as nat)) == Some(nats(o.push(p))),
        in_range(nats(o.push(p))),
{
    assert(o[0] <= 255 && o[1] <= 255 && o[2] <= 255 && o[3] <= 255);
    let d0 = decimal(o[0] as nat);
    let d1 = decimal(o[1] as nat);
    let d2 = decimal(o[2] as nat);
    let d3 = decimal(o[3] as nat);
    let dp = decimal(p as nat);
    let s3 = d3 + seq!['/'] + dp;
    let s2 = d2 + seq!['.'] + s3;
    let s1 = d1 + seq!['.'] + s2;
    let s0 = d0 + seq!['.'] + s1;
    assert(s0 =~= dotted_decimal(o) + seq!['/'] + dp);
    let f = nats(o.push(p));
    lemma_last_field(p as nat);
    assert(fields_from(s3, 3) == Some(seq![f[3], f[4]])) by {
        lemma_decimal_len(o[3] as nat);
        lemma_field_step(o[3] as nat, 3, dp);
        assert(seq![o[3] as nat] + seq![p as nat] =~= seq![f[3], f[4]]);
    }
    assert(fields_from(s2, 2) == Some(seq![f[2], f[3], f[4]])) by {
        lemma_decimal_len(o[2] as nat);
        lemma_field_step(o[2] as nat, 2, s3);
        assert(seq![o[2] as nat] + seq![f[3], f[4]] =~= seq![f[2], f[3], f[4]]);
    }
    assert(fields_from(s1, 1) == Some(seq![f[1], f[2], f[3], f[4]])) by {
        lemma_decimal_len(o[1] as nat);
        lemma_field_step(o[1] as nat, 1, s2);
        assert(seq![o[1] as nat] + seq![f[2], f[3], f[4]] =~= seq![f[1], f[2], f[3], f[4]]);
    }
    assert(fields_from(s0, 0) == Some(f)) by {
        lemma_decimal_len(o[0] as nat);
        lemma_field_step(o[0] as nat, 0, s1);
        assert(seq![o[0] as nat] + seq![f[1], f[2], f[3], f[4]] =~= f);
    }
    assert forall|k: int| 0 <= k < 5 implies #[trigger] f[k] <= limit(k as nat) by {
        assert(f[k] == o.push(p)[k]);
    }
}

proof fn lemma_last_field(p: nat)
    requires
        p <= 32,
    ensures
        fields_from(decimal(p), 4) == Some(seq![p]),
{
    let dp = decimal(p);
    lemma_decimal_len(p);
    lemma_decimal_value(p);
    lemma_digit_run_exact(dp, dp.len());
    assert(dp.take(dp.len() as int) =~= dp);
}

/// Reads the four octets and the prefix length of `A.B.C.D/P` notation, in
/// that order.
pub fn get_ip_from_cidr(line: &str) -> (r: Result<Vec<u32>, ParseError>)
    ensures
        cidr_fields(line@) is None ==> r is Err && r->Err_0 == ParseError::Malformed,
        cidr_fields(line@) is Some && !in_range(cidr_fields(line@)->Some_0) ==> r is Err
            && r->Err_0 == ParseError::OutOfRange,
        cidr_fields(line@) is Some && in_range(cidr_fields(line@)->Some_0) ==> r is Ok && nats(
            r->Ok_0@,
        ) == cidr_fields(line@)->Some_0,
{
    let ghost s = line@;
    if !line.is_ascii() {
        proof {
            if cidr_fields(s) is Some {
                lemma_fields_shape(s, 0);
            }
        }
        proof {
            assert(s == line@);
        }
        return Err(ParseError::Malformed);
    }
    let b = line.as_bytes();
    proof {
        assert(s == line@);
        is_ascii_spec_bytes(line);
        vstd::utf8::is_ascii_chars_encode_utf8(s);
    }
    let mut vals: Vec<u32> = Vec::new();
    proof {
        assert(s.skip(0) =~= s);
        lemma_prepend_nothing(vals@, cidr_fields(s));
    }
    let mut pos: usize = 0;
    let mut k: usize = 0;
    while k < 5
        invariant
            s == line@,
            b@.len() == s.len(),
            forall|i: int| 0 <= i < s.len() ==> #[trigger] b@[i] == s[i] as u8,
            is_ascii_chars(s),
            k <= 5,
            pos <= s.len(),
            vals@.len() == k,
            forall|i: int| 0 <= i < k ==> #[trigger] vals@[i] <= 999,
            k < 5 ==> cidr_fields(s) == prepend(vals@, fields_from(s.skip(pos as int), k as nat)),
            k == 5 ==> cidr_fields(s) == Some(nats(vals@)),
        decreases 5 - k,
    {
        let ghost t = s.skip(pos as int);
        let max_w: usize = if k < 4 {
            3
        } else {
            2
        };
        let start = pos;
        let mut value: u32 = 0;
        while pos < b.len() && b[pos] >= 48 && b[pos] <= 57
            invariant
                s == line@,
            b@.len() == s.len(),
                forall|i: int| 0 <= i < s.len() ==> #[trigger] b@[i] == s[i] as u8,
                is_ascii_chars(s),
                t == s.skip(start as int),
                start <= pos <= s.len(),
                pos - start <= max_w,
                max_w == max_width(k as nat),
                k < 5,
                forall|i: int| 0 <= i < pos - start ==> is_digit(#[trigger] t[i]),
                value == decimal_value(t.take(pos - start)),
                pos - start == 0 ==> value == 0,
                pos - start <= 1 ==> value <= 9,
                pos - start <= 2 ==> value <= 99,
                value <= 999,
                k < 5 ==> cidr_fields(s) == prepend(vals@, fields_from(t, k as nat)),
            decreases s.len() - pos,
        {
            proof {
                lemma_ascii_byte(s[pos as int], b@[pos as int]);
                assert(t[pos - start] == s[pos as int]);
            }
            if pos - start == max_w {
                proof {
                    assert(forall|i: int| 0 <= i < pos - start + 1 ==> is_digit(#[trigger] t[i]));
                    lemma_digit_run_at_least(t, (pos - start + 1) as nat);
                    assert(fields_from(t, k as nat) is None);
                    assert(cidr_fields(s) is None);
                }
                return Err(ParseError::Malformed);
            }
            let d = (b[pos] - 48) as u32;
            proof {
                assert(t.take(pos - start + 1).drop_last() =~= t.take(pos - start));
                assert(t.take(pos - start + 1).last() == t[pos - start]);
            }
            value = value * 10 + d;
            pos = pos + 1;
        }
        let n = pos - start;
        proof {
            if pos < s.len() {
                lemma_ascii_byte(s[pos as int], b@[pos as int]);
                assert(t[n as int] == s[pos as int]);
            }
            lemma_digit_run_exact(t, n as nat);
        }
        if n == 0 {
            return Err(ParseError::Malformed);
        }
        if k < 4 {
            let sep: u8 = if k < 3 {
                46
            } else {
                47
            };
            if pos < b.len() && b[pos] == sep {
                pos = pos + 1;
                proof {
                    assert(t.skip(n as int + 1) =~= s.skip(pos as int));
                }
            } else {
                return Err(ParseError::Malformed);
            }
        } else if pos != b.len() {
            return Err(ParseError::Malformed);
        }
        let ghost old_vals = vals@;
        vals.push(value);
        proof {
            assert(nats(vals@) =~= nats(old_vals) + seq![value as nat]);
            if k < 4 {
                match fields_from(s.skip(pos as int), (k + 1) as nat) {
                    Some(rest) => {
                        assert(nats(vals@) + rest =~= nats(old_vals) + (seq![value as nat] + rest));
                    },
                    None => {},
                }
            }
        }
        k = k + 1;
    }
    let mut j: usize = 0;
    while j < 5
        invariant
            s == line@,
            vals@.len() == 5,
            j <= 5,
            cidr_fields(s) == Some(nats(vals@)),
            forall|i: int| 0 <= i < j ==> #[trigger] vals@[i] <= limit(i as nat),
        decreases 5 - j,
    {
        let lim: u32 = if j < 4 {
            255
        } else {
            32
        };
        if vals[j] > lim {
            proof {
                assert(nats(vals@)[j as int] == vals@[j as int]);
                assert(!in_range(nats(vals@)));
            }
            return Err(ParseError::OutOfRange);
        }
        j = j + 1;
    }
    proof {
        assert forall|i: int| 0 <= i < 5 implies #[trigger] nats(vals@)[i] <= limit(i as nat) by {
            assert(vals@[i] <= limit(i as nat));
        }
    }
    Ok(vals)
}

} // verus!
