//! Integer literal text: decimal, or hexadecimal after a two-character prefix.

use vstd::prelude::*;

verus! {

/// Magnitudes at or beyond this bound are out of every range this module is asked for.
pub const MAGNITUDE_CAP: i64 = 0x1_0000_0000;

/// The value of `c` as a digit of `radix` (10 or 16, either letter case), or -1.
pub open spec fn digit_value(c: char, radix: int) -> int {
    let u = c as u32 as int;
    if 48 <= u <= 57 {
        u - 48
    } else if radix == 16 && 97 <= u <= 102 {
        u - 87
    } else if radix == 16 && 65 <= u <= 70 {
        u - 55
    } else {
        -1
    }
}

pub open spec fn all_digits(s: Seq<char>, radix: int) -> bool {
    forall|i: int| 0 <= i < s.len() ==> digit_value(#[trigger] s[i], radix) >= 0
}

/// The number that the digit string `s` denotes in `radix`.
pub open spec fn digits_value(s: Seq<char>, radix: int) -> int
    decreases s.len(),
{
    if s.len() == 0 {
        0
    } else {
        digits_value(s.drop_last(), radix) * radix + digit_value(s.last(), radix)
    }
}

/// Integer text as the standard library reads it: an optional `+`, or `-` when
/// the target type is signed, then one or more digits.
pub open spec fn parse_int(s: Seq<char>, radix: int, signed: bool) -> Option<int> {
    let neg = signed && s.len() > 0 && s[0] == '-';
    let body = if s.len() > 0 && (s[0] == '+' || neg) {
        s.drop_first()
    } else {
        s
    };
    if body.len() > 0 && all_digits(body, radix) {
        Some(
            if neg {
                -digits_value(body, radix)
            } else {
                digits_value(body, radix)
            },
        )
    } else {
        None
    }
}

/// `parse_int` into the integer type whose range is `lo..=hi` (signed when `lo < 0`).
pub open spec fn parse_in(s: Seq<char>, radix: int, lo: int, hi: int) -> Option<int> {
    match parse_int(s, radix, lo < 0) {
        Some(v) => if lo <= v <= hi {
            Some(v)
        } else {
            None
        },
        None => None,
    }
}

/// A literal operand: decimal first; failing that, the text after its first two
/// characters read as hexadecimal. Either way the value must fit `lo..=hi`.
pub open spec fn literal_in(s: Seq<char>, lo: int, hi: int) -> Option<int> {
    match parse_in(s, 10, lo, hi) {
        Some(v) => Some(v),
        None => if s.len() >= 2 {
            parse_in(s.subrange(2, s.len() as int), 16, lo, hi)
        } else {
            None
        },
    }
}

proof fn lemma_digits_nonneg(s: Seq<char>, radix: int)
    requires
        all_digits(s, radix),
        radix >= 1,
    ensures
        digits_value(s, radix) >= 0,
    decreases s.len(),
{
    if s.len() > 0 {
        let p = s.drop_last();
        assert(all_digits(p, radix)) by {
            assert forall|i: int| 0 <= i < p.len() implies digit_value(#[trigger] p[i], radix)
                >= 0 by {
                assert(p[i] == s[i]);
            }
        }
        lemma_digits_nonneg(p, radix);
        let v = digits_value(p, radix);
        assert(v * radix >= 0) by (nonlinear_arith)
            requires
                v >= 0,
                radix >= 1,
        ;
        assert(digit_value(s[s.len() - 1], radix) >= 0);
    }
}

fn digit(c: char, radix: u32) -> (r: i64)
    ensures
        r == digit_value(c, radix as int),
{
    let u = c as u32;
    if 48 <= u && u <= 57 {
        (u - 48) as i64
    } else if radix == 16 && 97 <= u && u <= 102 {
        (u - 87) as i64
    } else if radix == 16 && 65 <= u && u <= 70 {
        (u - 55) as i64
    } else {
        -1
    }
}

/// Reads `s` as an integer of `radix` that must lie in `lo..=hi`.
pub fn parse_integer(s: &str, radix: u32, lo: i64, hi: i64) -> (r: Option<i64>)
    requires
        radix == 10 || radix == 16,
        -MAGNITUDE_CAP < lo,
        hi < MAGNITUDE_CAP,
    ensures
        r matches Some(v) ==> parse_in(s@, radix as int, lo as int, hi as int) == Some(v as int),
        r is None ==> parse_in(s@, radix as int, lo as int, hi as int) is None,
{
    let n = s.unicode_len();
    let signed = lo < 0;
    let mut start: usize = 0;
    let mut neg = false;
    if n > 0 {
        let c0 = s.get_char(0);
        if c0 == '+' {
            start = 1;
        } else if signed && c0 == '-' {
            start = 1;
            neg = true;
        }
    }
    let ghost body = s@.subrange(start as int, n as int);
    proof {
        if start == 1 {
            assert(body =~= s@.drop_first());
        } else {
            assert(body =~= s@);
        }
    }
    if start >= n {
        return None;
    }
    let mut acc: i64 = 0;
    let mut i: usize = start;
    while i < n
        invariant
            start <= i <= n,
            n == s@.len(),
            body == s@.subrange(start as int, n as int),
            neg == (signed && s@.len() > 0 && s@[0] == '-'),
            start == (if s@.len() > 0 && (s@[0] == '+' || neg) {
                1usize
            } else {
                0usize
            }),
            signed == (lo < 0),
            radix == 10 || radix == 16,
            0 <= acc <= MAGNITUDE_CAP,
            all_digits(s@.subrange(start as int, i as int), radix as int),
            acc == (if digits_value(s@.subrange(start as int, i as int), radix as int)
                < MAGNITUDE_CAP {
                digits_value(s@.subrange(start as int, i as int), radix as int)
            } else {
                MAGNITUDE_CAP as int
            }),
        decreases n - i,
    {
        let ghost p = s@.subrange(start as int, i as int);
        let ghost q = s@.subrange(start as int, i + 1);
        let d = digit(s.get_char(i), radix);
        if d < 0 {
            assert(body[(i - start) as int] == s@[i as int]);
            return None;
        }
        assert(q.drop_last() =~= p);
        assert(q.last() == s@[i as int]);
        assert(all_digits(q, radix as int)) by {
            assert forall|k: int| 0 <= k < q.len() implies digit_value(#[trigger] q[k], radix as int)
                >= 0 by {
                if k < p.len() {
                    assert(q[k] == p[k]);
                }
            }
        }
        proof {
            lemma_digits_nonneg(p, radix as int);
            let v = digits_value(p, radix as int);
            let r = radix as int;
            assert(v * r >= v) by (nonlinear_arith)
                requires
                    v >= 0,
                    r >= 1,
            ;
            assert(acc * r <= MAGNITUDE_CAP * 16) by (nonlinear_arith)
                requires
                    0 <= acc <= MAGNITUDE_CAP,
                    r <= 16,
            ;
        }
        let next = acc * (radix as i64) + d;
        acc = if next > MAGNITUDE_CAP {
            MAGNITUDE_CAP
        } else {
            next
        };
        i = i + 1;
    }
    assert(s@.subrange(start as int, n as int) =~= body);
    let v = if neg {
        -acc
    } else {
        acc
    };
    if lo <= v && v <= hi {
        Some(v)
    } else {
        None
    }
}

/// Reads literal operand text into `lo..=hi`, as `literal_in` states.
pub fn parse_literal(s: &str, lo: i64, hi: i64) -> (r: Option<i64>)
    requires
        -MAGNITUDE_CAP < lo,
        hi < MAGNITUDE_CAP,
    ensures
        r matches Some(v) ==> literal_in(s@, lo as int, hi as int) == Some(v as int),
        r is None ==> literal_in(s@, lo as int, hi as int) is None,
{
    match parse_integer(s, 10, lo, hi) {
        Some(v) => Some(v),
        None => {
            let n = s.unicode_len();
            if n >= 2 {
                let rest = s.substring_char(2, n);
                parse_integer(rest, 16, lo, hi)
            } else {
                None
            }
        },
    }
}

/// A literal written as `0x` and hexadecimal digits denotes their value when it
/// fits `lo..=hi`, and is rejected when it does not.
pub proof fn lemma_hex_literal(h: Seq<char>, lo: int, hi: int)
    requires
        h.len() > 0,
        all_digits(h, 16),
    ensures
        literal_in(seq!['0', 'x'] + h, lo, hi) == (if lo <= digits_value(h, 16) <= hi {
            Some(digits_value(h, 16))
        } else {
            None
        }),
{
    let s = seq!['0', 'x'] + h;
    assert(s[1] == 'x');
    assert(!all_digits(s, 10));
    assert(!all_digits(s.drop_first(), 10)) by {
        assert(s.drop_first()[0] == 'x');
    }
    assert(s.subrange(2, s.len() as int) =~= h);
    assert(h[0] != '+' && h[0] != '-');
}

/// A literal of decimal digits whose value fits `lo..=hi` denotes that value.
pub proof fn lemma_decimal_literal(d: Seq<char>, lo: int, hi: int)
    requires
        d.len() > 0,
        all_digits(d, 10),
        lo <= digits_value(d, 10) <= hi,
    ensures
        literal_in(d, lo, hi) == Some(digits_value(d, 10)),
{
    assert(digit_value(d[0], 10) >= 0);
}

} // verus!
