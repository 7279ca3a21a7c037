//! Decimal floating-point text as `str::parse::<f64>` accepts it: an
//! optional sign, then `inf`, `infinity` or `nan` in any case, or digits with
//! at most one `.` and an optional exponent (`e` or `E`, an optional sign and
//! digits). The text is read as the exact decimal it spells (its digits and
//! where the point falls); `binary64` rounds that to the number it parses to.
use vstd::prelude::*;
use crate::text::{
    all_digit_chars, all_digits, chars_of, decimal_parts, decimal_text, digits_value, is_digit,
    join_chars, lemma_all_digits_take, lemma_digits_value_nonneg, min_int, slice_range,
    suffix_from,
};

verus! {

/// A finite number.
pub const FINITE: u8 = 0;

/// An infinity.
pub const INFINITE: u8 = 1;

/// Not a number.
pub const NOT_A_NUMBER: u8 = 2;

/// `c` in lower case (ASCII letters only).
pub open spec fn lower(c: char) -> char {
    if 'A' <= c && c <= 'Z' {
        ((c as int) + 32) as char
    } else {
        c
    }
}

/// `s` spells `name` (lower case) in any mix of cases.
pub open spec fn spells(s: Seq<char>, name: Seq<char>) -> bool {
    s.len() == name.len() && forall|i: int| 0 <= i < s.len() ==> #[trigger] lower(s[i]) == name[i]
}

/// `e` or `E`.
pub open spec fn is_exp_mark(c: char) -> bool {
    c == 'e' || c == 'E'
}

/// Where the first exponent mark of `s` stands (`s.len()` without one).
pub open spec fn exp_pos(s: Seq<char>) -> int
    decreases s.len(),
{
    if s.len() == 0 {
        0
    } else if is_exp_mark(s[0]) {
        0
    } else {
        1 + exp_pos(s.drop_first())
    }
}

/// The digits before and after the point of an unsigned mantissa.
pub open spec fn mantissa(m: Seq<char>) -> Option<(Seq<char>, Seq<char>)> {
    if m.len() > 0 && (m[0] == '+' || m[0] == '-') {
        None
    } else {
        match decimal_text(m) {
            Some((_neg, i, f)) => Some((i, f)),
            None => None,
        }
    }
}

/// The value of an exponent: an optional sign, then at least one digit.
pub open spec fn exponent(x: Seq<char>) -> Option<int> {
    let signed = x.len() > 0 && (x[0] == '+' || x[0] == '-');
    let d = if signed {
        x.drop_first()
    } else {
        x
    };
    if d.len() > 0 && all_digits(d) {
        Some(
            if x.len() > 0 && x[0] == '-' {
                -digits_value(d)
            } else {
                digits_value(d)
            },
        )
    } else {
        None
    }
}

/// Floating-point text read exactly: its kind ([`FINITE`], [`INFINITE`],
/// [`NOT_A_NUMBER`]), its sign, and for a finite number its digits and the
/// place of the point among them (the value is `0.digits` times ten to the
/// power `point`).
pub open spec fn float_text(s: Seq<char>) -> Option<(u8, bool, Seq<char>, int)> {
    let signed = s.len() > 0 && (s[0] == '+' || s[0] == '-');
    let neg = s.len() > 0 && s[0] == '-';
    let b = if signed {
        s.drop_first()
    } else {
        s
    };
    if spells(b, seq!['i', 'n', 'f']) || spells(b, seq!['i', 'n', 'f', 'i', 'n', 'i', 't', 'y']) {
        Some((INFINITE, neg, Seq::<char>::empty(), 0))
    } else if spells(b, seq!['n', 'a', 'n']) {
        Some((NOT_A_NUMBER, neg, Seq::<char>::empty(), 0))
    } else {
        let k = exp_pos(b);
        match mantissa(b.take(k)) {
            None => None,
            Some((i, f)) => if k >= b.len() {
                Some((FINITE, neg, i + f, i.len() as int))
            } else {
                match exponent(b.skip(k + 1)) {
                    Some(e) => Some((FINITE, neg, i + f, i.len() + e)),
                    None => None,
                }
            },
        }
    }
}

/// Ten to the power `k`.
pub open spec fn pow10(k: nat) -> int
    decreases k,
{
    if k == 0 {
        1
    } else {
        10 * pow10((k - 1) as nat)
    }
}

proof fn lemma_digits_of_decimal(s: Seq<char>)
    ensures
        match decimal_text(s) {
            Some((_neg, i, f)) => all_digits(i) && all_digits(f),
            None => true,
        },
{
}

proof fn lemma_exp_pos(s: Seq<char>, i: int)
    requires
        0 <= i <= s.len(),
        forall|j: int| 0 <= j < i ==> !is_exp_mark(#[trigger] s[j]),
        i == s.len() || is_exp_mark(s[i]),
    ensures
        exp_pos(s) == i,
    decreases i,
{
    if i > 0 {
        let t = s.drop_first();
        assert forall|j: int| 0 <= j < i - 1 implies !is_exp_mark(#[trigger] t[j]) by {
            assert(t[j] == s[j + 1]);
        }
        if i < s.len() {
            assert(t[i - 1] == s[i]);
        }
        lemma_exp_pos(t, i - 1);
    }
}

/// Whether `c` is `l` in either case.
fn same_letter(c: char, l: char) -> (b: bool)
    ensures
        b == (lower(c) == l),
{
    if 'A' <= c && c <= 'Z' {
        (c as u32) + 32 == (l as u32)
    } else {
        c == l
    }
}

/// Whether `b` spells `name` in any mix of cases.
fn spells_chars(b: &[char], name: &[char]) -> (r: bool)
    ensures
        r == spells(b@, name@),
{
    if b.len() != name.len() {
        return false;
    }
    let mut i: usize = 0;
    while i < b.len()
        invariant
            i <= b.len(),
            b.len() == name.len(),
            forall|j: int| 0 <= j < i ==> #[trigger] lower(b@[j]) == name@[j],
        decreases b.len() - i,
    {
        if !same_letter(b[i], name[i]) {
            return false;
        }
        i += 1;
    }
    true
}

/// Where the first exponent mark of `b` stands (`b.len()` without one).
fn find_exp_mark(b: &[char]) -> (k: usize)
    ensures
        k == exp_pos(b@),
        k <= b.len(),
{
    let mut i: usize = 0;
    while i < b.len()
        invariant
            i <= b.len(),
            forall|j: int| 0 <= j < i ==> !is_exp_mark(#[trigger] b@[j]),
        decreases b.len() - i,
    {
        if b[i] == 'e' || b[i] == 'E' {
            proof {
                lemma_exp_pos(b@, i as int);
            }
            return i;
        }
        i += 1;
    }
    proof {
        lemma_exp_pos(b@, i as int);
    }
    i
}

/// The value of the digits `d`, capped at `cap`.
fn digits_value_upto(d: &[char], cap: u128) -> (r: u128)
    requires
        all_digits(d@),
        cap <= 0x1_0000_0000_0000_0000_0000,
    ensures
        r == min_int(digits_value(d@), cap as int),
{
    let mut acc: u128 = 0;
    let mut i: usize = 0;
    while i < d.len()
        invariant
            i <= d.len(),
            all_digits(d@),
            cap <= 0x1_0000_0000_0000_0000_0000,
            acc == min_int(digits_value(d@.take(i as int)), cap as int),
        decreases d.len() - i,
    {
        let ghost pre = d@.take(i as int);
        let ghost nxt = d@.take(i + 1);
        assert(nxt.drop_last() == pre);
        assert(nxt.last() == d@[i as int]);
        assert(is_digit(d@[i as int]));
        proof {
            lemma_all_digits_take(d@, i as int);
            lemma_digits_value_nonneg(pre);
        }
        let dv = (d[i] as u32 - '0' as u32) as u128;
        if acc < cap {
            let n = acc * 10 + dv;
            acc = if n > cap {
                cap
            } else {
                n
            };
        }
        i += 1;
    }
    assert(d@.take(d.len() as int) == d@);
    acc
}

/// The exponent text `x` read with its magnitude capped at `cap`: the sign
/// (`true` for `-`) and the capped magnitude.
fn exponent_capped(x: &[char], cap: u128) -> (r: Option<(bool, u128)>)
    requires
        cap <= 0x1_0000_0000_0000_0000_0000,
    ensures
        match r {
            None => exponent(x@) is None,
            Some((neg, m)) => exponent(x@) is Some && (if neg {
                exponent(x@)->0 <= 0 && m == min_int(-exponent(x@)->0, cap as int)
            } else {
                exponent(x@)->0 >= 0 && m == min_int(exponent(x@)->0, cap as int)
            }),
        },
{
    let signed = x.len() > 0 && (x[0] == '+' || x[0] == '-');
    let neg = x.len() > 0 && x[0] == '-';
    let d = if signed {
        suffix_from(x, 1)
    } else {
        suffix_from(x, 0)
    };
    proof {
        if signed {
            assert(d@ == x@.drop_first());
        } else {
            assert(d@ == x@);
        }
    }
    if d.len() == 0 || !all_digit_chars(&d) {
        return None;
    }
    proof {
        lemma_digits_value_nonneg(d@);
    }
    let m = digits_value_upto(&d, cap);
    Some((neg, m))
}

/// Reads floating-point text (see [`float_text`]): its kind, its sign, its
/// digits, and a place of the point that reads the same as the exact one.
pub fn float_parts(v: &[char]) -> (r: Option<(u8, bool, Vec<char>, i128)>)
    ensures
        match r {
            None => float_text(v@) is None,
            Some((kind, neg, d, p)) => match float_text(v@) {
                Some((k2, n2, d2, p2)) => kind == k2 && neg == n2 && d@ == d2 && all_digits(d2)
                    && (p == p2 || (p <= -1000 && p2 <= -1000) || (p
                    >= d2.len() + 10 && p2 >= d2.len() + 10)) && -0x1_0000_0000_0000_0000_0000 <= p
                    <= 0x1_0000_0000_0000_0000_0000,
                None => false,
            },
        },
{
    let signed = v.len() > 0 && (v[0] == '+' || v[0] == '-');
    let neg = v.len() > 0 && v[0] == '-';
    let b = if signed {
        suffix_from(v, 1)
    } else {
        suffix_from(v, 0)
    };
    proof {
        if signed {
            assert(b@ == v@.drop_first());
        } else {
            assert(b@ == v@);
        }
    }
    let inf = chars_of("inf");
    let infinity = chars_of("infinity");
    let nan = chars_of("nan");
    proof {
        reveal_strlit("inf");
        reveal_strlit("infinity");
        reveal_strlit("nan");
        assert(inf@ == seq!['i', 'n', 'f']);
        assert(infinity@ == seq!['i', 'n', 'f', 'i', 'n', 'i', 't', 'y']);
        assert(nan@ == seq!['n', 'a', 'n']);
    }
    if spells_chars(&b, &inf) || spells_chars(&b, &infinity) {
        let e: Vec<char> = Vec::new();
        proof {
            assert(all_digits(e@));
        }
        return Some((INFINITE, neg, e, 0));
    }
    if spells_chars(&b, &nan) {
        let e: Vec<char> = Vec::new();
        proof {
            assert(all_digits(e@));
        }
        return Some((NOT_A_NUMBER, neg, e, 0));
    }
    let k = find_exp_mark(&b);
    let m = slice_range(&b, 0, k);
    assert(m@ == b@.take(k as int));
    if m.len() > 0 && (m[0] == '+' || m[0] == '-') {
        return None;
    }
    match decimal_parts(&m) {
        None => None,
        Some((_n, ip, fp)) => {
            proof {
                lemma_digits_of_decimal(m@);
            }
            let d = join_chars(&ip, &fp);
            assert forall|j: int| 0 <= j < d@.len() implies is_digit(#[trigger] d@[j]) by {
                if j < ip@.len() {
                    assert(d@[j] == ip@[j]);
                } else {
                    assert(d@[j] == fp@[j - ip@.len()]);
                }
            }
            if k >= b.len() {
                return Some((FINITE, neg, d, ip.len() as i128));
            }
            let x = suffix_from(&b, k + 1);
            assert(x@ == b@.skip(k + 1));
            let cap: u128 = (ip.len() as u128) + (fp.len() as u128) + 1010;
            match exponent_capped(&x, cap) {
                None => None,
                Some((eneg, mag)) => {
                    let p: i128 = if eneg {
                        (ip.len() as i128) - (mag as i128)
                    } else {
                        (ip.len() as i128) + (mag as i128)
                    };
                    proof {
                        let e = exponent(x@)->0;
                        let p2 = ip@.len() + e;
                        if mag < cap {
                            assert(p == p2);
                        }
                    }
                    Some((FINITE, neg, d, p))
                },
            }
        },
    }
}

} // verus!
