//! The binary64 number nearest to a decimal value, worked out with integers:
//! a significand of at most 53 bits times a power of two, rounded to nearest
//! with ties to even, as `str::parse::<f64>` rounds. Exponents go down to the
//! subnormal numbers; a value that rounds to 2^1024 or more is an infinity.
use vstd::prelude::*;
use crate::parsers::float_text::pow10;
use crate::text::{all_digits, digit_val, digits_value, is_digit, lemma_digits_value_nonneg};

verus! {

/// Two to the power `k`.
pub open spec fn two_pow(k: nat) -> int
    decreases k,
{
    if k == 0 {
        1
    } else {
        2 * two_pow((k - 1) as nat)
    }
}

/// The decimal `0.d` times ten to the power `p`, as a fraction `a / b`.
pub open spec fn decimal_fraction(d: Seq<char>, p: int) -> (int, int) {
    (
        digits_value(d) * pow10(
            if p > d.len() {
                (p - d.len()) as nat
            } else {
                0
            },
        ),
        pow10(
            if p < d.len() {
                (d.len() - p) as nat
            } else {
                0
            },
        ),
    )
}

/// `q` is the exponent of the last significand bit of the binary64 numbers
/// around `a / b`: the value is below two to the power `q + 53`, and at least
/// two to the power `q + 52` unless `q` is the least exponent, -1074 (both
/// sides times two to the power 1074, to keep the exponents whole numbers).
pub open spec fn exponent_fits(a: int, b: int, q: int) -> bool {
    &&& -1074 <= q
    &&& a * two_pow(1074) < b * two_pow((q + 1127) as nat)
    &&& (q == -1074 || a * two_pow(1074) >= b * two_pow((q + 1126) as nat))
}

/// The exponent for `a / b` (see [`exponent_fits`]; there is exactly one).
pub open spec fn binary64_exponent(a: int, b: int) -> int {
    choose|q: int| exponent_fits(a, b, q)
}

/// `a / b` times two to the power `-q`, as a numerator and a denominator.
pub open spec fn scaled_fraction(a: int, b: int, q: int) -> (int, int) {
    if q <= 0 {
        (a * two_pow((-q) as nat), b)
    } else {
        (a, b * two_pow(q as nat))
    }
}

/// `n / d` rounded to the nearest integer, ties to the even one.
pub open spec fn round_ties_even(n: int, d: int) -> int {
    let f = n / d;
    let r = n % d;
    if 2 * r > d || (2 * r == d && f % 2 == 1) {
        f + 1
    } else {
        f
    }
}

/// The binary64 number nearest to `a / b`: its significand `m` and exponent
/// `q`, the value being `m` times two to the power `q` (an infinity where
/// [`overflows`] holds).
pub open spec fn nearest_binary64(a: int, b: int) -> (int, int) {
    let q = binary64_exponent(a, b);
    let (n, d) = scaled_fraction(a, b, q);
    (round_ties_even(n, d), q)
}

/// `m` times two to the power `q` reaches two to the power 1024: the parse
/// gives an infinity.
pub open spec fn overflows(m: int, q: int) -> bool {
    q >= 0 && m * two_pow(q as nat) >= two_pow(1024)
}

/// The integer part of `m` times two to the power `q` (for `m >= 0`).
pub open spec fn floor_of(m: int, q: int) -> int {
    if q >= 0 {
        m * two_pow(q as nat)
    } else {
        m / two_pow((-q) as nat)
    }
}

/// The fraction of `m` times two to the power `q` is at least a half.
pub open spec fn fraction_at_least_half(m: int, q: int) -> bool {
    q < 0 && 2 * (m % two_pow((-q) as nat)) >= two_pow((-q) as nat)
}

/// `m` times two to the power `q` is not a whole number.
pub open spec fn has_fraction_bits(m: int, q: int) -> bool {
    q < 0 && m % two_pow((-q) as nat) != 0
}

/// The integer part of a thousand times `m` times two to the power `q`.
pub open spec fn thousandths_of(m: int, q: int) -> int {
    if q >= 0 {
        1000 * m * two_pow(q as nat)
    } else {
        (1000 * m) / two_pow((-q) as nat)
    }
}

proof fn lemma_two_pow_values()
    ensures
        two_pow(32) == 0x1_0000_0000,
        two_pow(52) == 0x10_0000_0000_0000,
        two_pow(53) == 0x20_0000_0000_0000,
        two_pow(60) == 0x1000_0000_0000_0000,
        two_pow(63) == 0x8000_0000_0000_0000,
        two_pow(64) == 0x1_0000_0000_0000_0000,
        two_pow(24) == 0x100_0000,
        two_pow(23) == 0x80_0000,
        two_pow(31) == 0x8000_0000,
        two_pow(7) == 128,
{
    reveal_with_fuel(two_pow, 65);
}

pub proof fn lemma_two_pow_pos(k: nat)
    ensures
        two_pow(k) >= 1,
    decreases k,
{
    if k > 0 {
        lemma_two_pow_pos((k - 1) as nat);
    }
}

proof fn lemma_two_pow_adds(i: nat, j: nat)
    ensures
        two_pow(i + j) == two_pow(i) * two_pow(j),
    decreases i,
{
    if i > 0 {
        lemma_two_pow_adds((i - 1) as nat, j);
        assert(two_pow(i + j) == 2 * two_pow((i - 1 + j) as nat));
        let x = two_pow((i - 1) as nat);
        let y = two_pow(j);
        assert(2 * (x * y) == (2 * x) * y) by (nonlinear_arith);
    }
}

pub proof fn lemma_two_pow_le(i: nat, j: nat)
    requires
        i <= j,
    ensures
        two_pow(i) <= two_pow(j),
{
    lemma_two_pow_adds(i, (j - i) as nat);
    lemma_two_pow_pos(i);
    lemma_two_pow_pos((j - i) as nat);
    let x = two_pow(i);
    let y = two_pow((j - i) as nat);
    assert(x <= x * y) by (nonlinear_arith)
        requires
            x >= 1,
            y >= 1,
    ;
}

proof fn lemma_pow10_pos(k: nat)
    ensures
        pow10(k) >= 1,
    decreases k,
{
    if k > 0 {
        lemma_pow10_pos((k - 1) as nat);
    }
}

proof fn lemma_pow10_adds(i: nat, j: nat)
    ensures
        pow10(i + j) == pow10(i) * pow10(j),
    decreases i,
{
    if i > 0 {
        lemma_pow10_adds((i - 1) as nat, j);
        assert(pow10(i + j) == 10 * pow10((i - 1 + j) as nat));
        let x = pow10((i - 1) as nat);
        let y = pow10(j);
        assert(10 * (x * y) == (10 * x) * y) by (nonlinear_arith);
    }
}

/// There is one exponent for `a / b`, whichever fits.
proof fn lemma_exponent_unique(a: int, b: int, q: int)
    requires
        a >= 0,
        b >= 1,
        exponent_fits(a, b, q),
    ensures
        binary64_exponent(a, b) == q,
{
    let q1 = binary64_exponent(a, b);
    assert(exponent_fits(a, b, q1));
    if q1 < q {
        lemma_two_pow_le((q1 + 1127) as nat, (q + 1126) as nat);
        let x = two_pow((q1 + 1127) as nat);
        let y = two_pow((q + 1126) as nat);
        assert(b * x <= b * y) by (nonlinear_arith)
            requires
                b >= 1,
                x <= y,
        ;
    } else if q < q1 {
        lemma_two_pow_le((q + 1127) as nat, (q1 + 1126) as nat);
        let x = two_pow((q + 1127) as nat);
        let y = two_pow((q1 + 1126) as nat);
        assert(b * x <= b * y) by (nonlinear_arith)
            requires
                b >= 1,
                x <= y,
        ;
    }
}

/// A value below two to the power -1075 is nearest to zero.
proof fn lemma_nearest_tiny(a: int, b: int)
    requires
        a >= 0,
        b >= 1,
        a * two_pow(1075) < b,
    ensures
        nearest_binary64(a, b) == (0int, -1074int),
{
    let p74 = two_pow(1074);
    assert(two_pow(1075) == 2 * p74);
    lemma_two_pow_pos(1074);
    lemma_two_pow_pos(53);
    assert(a * p74 <= a * (2 * p74)) by (nonlinear_arith)
        requires
            a >= 0,
            p74 >= 1,
    ;
    assert(b <= b * two_pow(53)) by (nonlinear_arith)
        requires
            b >= 1,
            two_pow(53) >= 1,
    ;
    assert(exponent_fits(a, b, -1074));
    lemma_exponent_unique(a, b, -1074);
    let n = a * p74;
    assert(2 * n == a * (2 * p74)) by (nonlinear_arith)
        requires
            n == a * p74,
    ;
    vstd::arithmetic::div_mod::lemma_fundamental_div_mod_converse(n, b, 0, n);
}

proof fn lemma_two_pow_exceeds(k: nat)
    ensures
        two_pow(k) > k,
    decreases k,
{
    if k > 0 {
        lemma_two_pow_exceeds((k - 1) as nat);
    }
}

/// `x / d` is at least `c` when `x` is at least `c` times `d`.
proof fn lemma_div_at_least(x: int, d: int, c: int)
    requires
        d >= 1,
        x >= c * d,
    ensures
        x / d >= c,
{
    let f = x / d;
    let r = x % d;
    vstd::arithmetic::div_mod::lemma_fundamental_div_mod(x, d);
    assert(0 <= r < d);
    if f < c {
        assert(x < c * d) by (nonlinear_arith)
            requires
                x == d * f + r,
                r < d,
                f < c,
                d >= 1,
        ;
    }
}

proof fn lemma_exponent_exists(a: int, b: int, q: int)
    requires
        a >= 0,
        b >= 1,
        -1074 <= q,
        q == -1074 || a * two_pow(1074) >= b * two_pow((q + 1126) as nat),
    ensures
        exists|q2: int| exponent_fits(a, b, q2),
    decreases a - q,
{
    if a * two_pow(1074) < b * two_pow((q + 1127) as nat) {
        assert(exponent_fits(a, b, q));
    } else {
        if q >= a {
            lemma_two_pow_exceeds(a as nat);
            lemma_two_pow_adds(a as nat, 1074);
            lemma_two_pow_pos(1074);
            lemma_two_pow_le((a + 1074) as nat, (q + 1127) as nat);
            let x = two_pow(a as nat);
            let y = two_pow(1074);
            let z = two_pow((q + 1127) as nat);
            assert(a * y < b * z) by (nonlinear_arith)
                requires
                    x > a,
                    a >= 0,
                    y >= 1,
                    x * y <= z,
                    b >= 1,
            ;
        }
        lemma_exponent_exists(a, b, q + 1);
    }
}

/// A value of at least two to the power 32 rounds to an infinity or to a
/// number whose integer part is at least two to the power 32.
pub proof fn lemma_nearest_large(a: int, b: int)
    requires
        a >= 0,
        b >= 1,
        a >= b * two_pow(32),
    ensures
        ({
            let (m, q) = nearest_binary64(a, b);
            overflows(m, q) || floor_of(m, q) >= two_pow(32)
        }),
{
    lemma_exponent_exists(a, b, -1074);
    let q = binary64_exponent(a, b);
    assert(exponent_fits(a, b, q));
    let big = a * two_pow(1074);
    lemma_two_pow_adds(32, 1074);
    lemma_two_pow_pos(1074);
    lemma_two_pow_pos(32);
    let t32 = two_pow(32);
    let t74 = two_pow(1074);
    assert(big >= b * two_pow(1106)) by (nonlinear_arith)
        requires
            big == a * t74,
            a >= b * t32,
            t74 >= 1,
            two_pow(1106) == t32 * t74,
    ;
    if q + 1127 <= 1106 {
        lemma_two_pow_le((q + 1127) as nat, 1106);
        let x = two_pow((q + 1127) as nat);
        assert(b * x <= b * two_pow(1106)) by (nonlinear_arith)
            requires
                b >= 1,
                x <= two_pow(1106),
        ;
    }
    assert(q >= -20);
    assert(big >= b * two_pow((q + 1126) as nat));
    let (n, d) = scaled_fraction(a, b, q);
    let t52 = two_pow(52);
    lemma_two_pow_pos(52);
    if q <= 0 {
        let j = (-q) as nat;
        let rest = (1074 + q) as nat;
        lemma_two_pow_adds(j, rest);
        lemma_two_pow_adds(52, rest);
        lemma_two_pow_pos(rest);
        lemma_two_pow_pos(j);
        let pj = two_pow(j);
        let pr = two_pow(rest);
        assert((q + 1126) as nat == 52 + rest);
        assert(n * pr >= (b * t52) * pr) by (nonlinear_arith)
            requires
                n == a * pj,
                big == a * t74,
                t74 == pj * pr,
                big >= b * (t52 * pr),
        ;
        assert(n >= b * t52) by (nonlinear_arith)
            requires
                n * pr >= (b * t52) * pr,
                pr >= 1,
        ;
        assert(d == b);
    } else {
        let j = q as nat;
        lemma_two_pow_adds(j, 52);
        lemma_two_pow_adds((j + 52) as nat, 1074);
        lemma_two_pow_pos(j);
        assert((q + 1126) as nat == (j + 52) + 1074);
        let pj = two_pow(j);
        assert(a * t74 >= (b * pj * t52) * t74) by (nonlinear_arith)
            requires
                big == a * t74,
                big >= b * two_pow((q + 1126) as nat),
                two_pow((q + 1126) as nat) == two_pow((j + 52) as nat) * t74,
                two_pow((j + 52) as nat) == pj * t52,
        ;
        assert(a >= (b * pj) * t52) by (nonlinear_arith)
            requires
                a * t74 >= (b * pj * t52) * t74,
                t74 >= 1,
        ;
        assert(d == b * pj && d >= 1) by (nonlinear_arith)
            requires
                d == b * pj,
                b >= 1,
                pj >= 1,
        ;
    }
    assert(n >= t52 * d) by (nonlinear_arith)
        requires
            n >= d * t52,
    ;
    lemma_div_at_least(n, d, t52);
    let m = round_ties_even(n, d);
    assert(m >= t52);
    if q >= 0 {
        lemma_two_pow_pos(q as nat);
        let pq = two_pow(q as nat);
        lemma_two_pow_le(32, 52);
        assert(m * pq >= t32) by (nonlinear_arith)
            requires
                m >= t52,
                t52 >= t32,
                t32 >= 1,
                pq >= 1,
        ;
    } else {
        let j = (-q) as nat;
        lemma_two_pow_adds(32, j);
        lemma_two_pow_le(32 + j, 52);
        lemma_two_pow_pos(j);
        assert(m >= t32 * two_pow(j));
        lemma_div_at_least(m, two_pow(j), t32);
    }
}

/// The number that the decimal digits `s` spell, least significant first.
pub open spec fn le_value(s: Seq<u8>) -> int
    decreases s.len(),
{
    if s.len() == 0 {
        0
    } else {
        s[0] + 10 * le_value(s.drop_first())
    }
}

/// Every entry of `s` is a decimal digit.
pub open spec fn le_digits(s: Seq<u8>) -> bool {
    forall|i: int| 0 <= i < s.len() ==> #[trigger] s[i] < 10
}

proof fn lemma_le_nonneg(s: Seq<u8>)
    ensures
        le_value(s) >= 0,
    decreases s.len(),
{
    if s.len() > 0 {
        lemma_le_nonneg(s.drop_first());
    }
}

proof fn lemma_le_push(s: Seq<u8>, x: u8)
    ensures
        le_value(s.push(x)) == le_value(s) + x * pow10(s.len()),
    decreases s.len(),
{
    if s.len() == 0 {
        assert(s.push(x).drop_first() =~= Seq::<u8>::empty());
        assert(s.push(x)[0] == x);
        assert(pow10(0) == 1);
        assert(le_value(s.push(x)) == x + 10 * le_value(s.push(x).drop_first()));
        assert(le_value(Seq::<u8>::empty()) == 0);
        assert(le_value(s) == 0);
    } else {
        let t = s.drop_first();
        assert(s.push(x).drop_first() =~= t.push(x));
        assert(s.push(x)[0] == s[0]);
        lemma_le_push(t, x);
        let pw = pow10(t.len());
        assert(pow10(s.len()) == 10 * pw);
        assert(10 * (le_value(t) + x * pw) == 10 * le_value(t) + x * (10 * pw)) by (nonlinear_arith);
        assert(le_value(s.push(x)) == s[0] + 10 * le_value(t.push(x)));
        assert(le_value(s) == s[0] + 10 * le_value(t));
    }
}

proof fn lemma_le_split(s: Seq<u8>, f: int)
    requires
        le_digits(s),
        0 <= f <= s.len(),
    ensures
        le_value(s) == le_value(s.take(f)) + pow10(f as nat) * le_value(s.skip(f)),
        0 <= le_value(s.take(f)) < pow10(f as nat),
    decreases f,
{
    if f == 0 {
        assert(s.take(0) =~= Seq::<u8>::empty());
        assert(s.skip(0) =~= s);
        assert(pow10(0) == 1);
        assert(le_value(Seq::<u8>::empty()) == 0);
    } else {
        let t = s.drop_first();
        assert(le_digits(t)) by {
            assert forall|i: int| 0 <= i < t.len() implies #[trigger] t[i] < 10 by {
                assert(t[i] == s[i + 1]);
            }
        }
        lemma_le_split(t, f - 1);
        assert(s.take(f).drop_first() =~= t.take(f - 1));
        assert(s.take(f)[0] == s[0]);
        assert(s.skip(f) =~= t.skip(f - 1));
        let lo = le_value(t.take(f - 1));
        let hi = le_value(t.skip(f - 1));
        let pw = pow10((f - 1) as nat);
        assert(pow10(f as nat) == 10 * pw);
        assert(s[0] < 10);
        assert(le_value(s) == s[0] + 10 * le_value(t));
        assert(le_value(s.take(f)) == s[0] + 10 * lo);
        assert(10 * (lo + pw * hi) == 10 * lo + (10 * pw) * hi) by (nonlinear_arith);
    }
}

proof fn lemma_le_zero(s: Seq<u8>)
    requires
        le_digits(s),
    ensures
        le_value(s) == 0 <==> forall|i: int| 0 <= i < s.len() ==> #[trigger] s[i] == 0,
    decreases s.len(),
{
    if s.len() > 0 {
        let t = s.drop_first();
        assert(le_digits(t)) by {
            assert forall|i: int| 0 <= i < t.len() implies #[trigger] t[i] < 10 by {
                assert(t[i] == s[i + 1]);
            }
        }
        lemma_le_zero(t);
        lemma_le_nonneg(t);
        if forall|i: int| 0 <= i < s.len() ==> #[trigger] s[i] == 0 {
            assert forall|i: int| 0 <= i < t.len() implies #[trigger] t[i] == 0 by {
                assert(t[i] == s[i + 1]);
            }
        }
        if le_value(s) == 0 {
            assert forall|i: int| 0 <= i < s.len() implies #[trigger] s[i] == 0 by {
                if i > 0 {
                    assert(s[i] == t[i - 1]);
                }
            }
        }
    }
}

/// Digit-by-digit doubling of a decimal number stored least significant first.
fn double_le(s: &Vec<u8>) -> (r: Vec<u8>)
    requires
        le_digits(s@),
    ensures
        le_digits(r@),
        le_value(r@) == 2 * le_value(s@),
        s@.len() <= r@.len() <= s@.len() + 1,
{
    let mut r: Vec<u8> = Vec::new();
    let mut carry: u8 = 0;
    let mut i: usize = 0;
    while i < s.len()
        invariant
            i <= s.len(),
            r@.len() == i,
            carry <= 1,
            le_digits(s@),
            le_digits(r@),
            le_value(r@) + carry * pow10(i as nat) == 2 * le_value(s@.take(i as int)),
        decreases s.len() - i,
    {
        let t: u8 = 2 * s[i] + carry;
        let ghost old_r = r@;
        r.push(t % 10);
        let nc: u8 = t / 10;
        proof {
            lemma_le_push(old_r, t % 10);
            lemma_le_push(s@.take(i as int), s@[i as int]);
            assert(s@.take(i + 1) =~= s@.take(i as int).push(s@[i as int]));
            let pw = pow10(i as nat);
            assert(pow10((i + 1) as nat) == 10 * pw);
            let ti = t as int;
            assert((ti % 10) * pw + (ti / 10) * (10 * pw) == ti * pw) by (nonlinear_arith)
                requires
                    ti == 10 * (ti / 10) + ti % 10,
            ;
            assert(ti * pw == carry * pw + 2 * (s@[i as int] * pw)) by (nonlinear_arith)
                requires
                    ti == 2 * s@[i as int] + carry,
            ;
        }
        carry = nc;
        i += 1;
    }
    assert(s@.take(s.len() as int) =~= s@);
    if carry > 0 {
        let ghost old_r = r@;
        r.push(carry);
        proof {
            lemma_le_push(old_r, carry);
        }
    }
    r
}

/// The digits of `s` from place `f` up, as a number (none past its end).
pub open spec fn high_of(s: Seq<u8>, f: int) -> int {
    if f <= s.len() {
        le_value(s.skip(f))
    } else {
        0
    }
}

/// The digits of `s` below place `f`, as a number.
pub open spec fn low_of(s: Seq<u8>, f: int) -> int {
    if f <= s.len() {
        le_value(s.take(f))
    } else {
        le_value(s)
    }
}

proof fn lemma_split_at(s: Seq<u8>, f: int)
    requires
        le_digits(s),
        0 <= f,
    ensures
        le_value(s) == low_of(s, f) + pow10(f as nat) * high_of(s, f),
        0 <= low_of(s, f) < pow10(f as nat),
        high_of(s, f) >= 0,
{
    if f <= s.len() {
        lemma_le_split(s, f);
        lemma_le_nonneg(s.skip(f));
    } else {
        lemma_le_split(s, s.len() as int);
        assert(s.take(s.len() as int) =~= s);
        lemma_pow10_adds(s.len(), (f - s.len()) as nat);
        lemma_pow10_pos((f - s.len()) as nat);
        lemma_pow10_pos(s.len());
        let x = pow10(s.len());
        let y = pow10((f - s.len()) as nat);
        assert(x <= x * y) by (nonlinear_arith)
            requires
                x >= 1,
                y >= 1,
        ;
    }
}

/// The digits of `s` from place `f` up, as a number, capped at two to the
/// power 60.
fn high_part(s: &Vec<u8>, f: u128) -> (r: u64)
    requires
        le_digits(s@),
    ensures
        r == if high_of(s@, f as int) < 0x1000_0000_0000_0000 {
            high_of(s@, f as int)
        } else {
            0x1000_0000_0000_0000
        },
{
    if f >= s.len() as u128 {
        if f == s.len() as u128 {
            assert(s@.skip(s.len() as int) =~= Seq::<u8>::empty());
        }
        return 0;
    }
    let f: usize = f as usize;
    let mut acc: u64 = 0;
    let mut i: usize = s.len();
    assert(s@.subrange(s.len() as int, s.len() as int) =~= Seq::<u8>::empty());
    while i > f
        invariant
            f <= i <= s@.len(),
            le_digits(s@),
            acc == if le_value(s@.subrange(i as int, s@.len() as int)) < 0x1000_0000_0000_0000 {
                le_value(s@.subrange(i as int, s@.len() as int))
            } else {
                0x1000_0000_0000_0000
            },
        decreases i,
    {
        i -= 1;
        let ghost sub = s@.subrange(i as int, s@.len() as int);
        assert(sub.drop_first() =~= s@.subrange(i + 1, s@.len() as int));
        assert(sub[0] == s@[i as int]);
        proof {
            lemma_le_nonneg(s@.subrange(i + 1, s@.len() as int));
        }
        let dgt = s[i] as u64;
        assert(dgt < 10);
        if acc >= 0x1000_0000_0000_0000 {
            acc = 0x1000_0000_0000_0000;
        } else {
            let n = dgt + 10 * acc;
            acc = if n >= 0x1000_0000_0000_0000 {
                0x1000_0000_0000_0000
            } else {
                n
            };
        }
    }
    assert(s@.subrange(f as int, s@.len() as int) =~= s@.skip(f as int));
    acc
}

/// Whether the digits of `s` below place `f` are all zero.
fn low_is_zero(s: &Vec<u8>, f: u128) -> (b: bool)
    requires
        le_digits(s@),
    ensures
        b == (low_of(s@, f as int) == 0),
{
    let g: usize = if f >= s.len() as u128 {
        s.len()
    } else {
        f as usize
    };
    let ghost lo = s@.take(g as int);
    assert(g == s.len() ==> lo =~= s@);
    assert(low_of(s@, f as int) == le_value(lo));
    assert(le_digits(lo)) by {
        assert forall|i: int| 0 <= i < lo.len() implies #[trigger] lo[i] < 10 by {
            assert(lo[i] == s@[i]);
        }
    }
    let mut i: usize = 0;
    while i < g
        invariant
            i <= g <= s@.len(),
            lo == s@.take(g as int),
            forall|j: int| 0 <= j < i ==> #[trigger] lo[j] == 0,
            le_digits(lo),
            low_of(s@, f as int) == le_value(lo),
        decreases g - i,
    {
        if s[i] != 0 {
            assert(lo[i as int] == s@[i as int]);
            proof {
                lemma_le_zero(lo);
            }
            return false;
        }
        assert(lo[i as int] == s@[i as int]);
        i += 1;
    }
    proof {
        lemma_le_zero(lo);
    }
    true
}

proof fn lemma_digits_concat(x: Seq<char>, y: Seq<char>)
    ensures
        digits_value(x + y) == digits_value(x) * pow10(y.len()) + digits_value(y),
    decreases y.len(),
{
    if y.len() == 0 {
        assert(x + y =~= x);
    } else {
        let yl = y.drop_last();
        assert((x + y).drop_last() =~= x + yl);
        assert((x + y).last() == y.last());
        lemma_digits_concat(x, yl);
        let pw = pow10(yl.len());
        assert(pow10(y.len()) == 10 * pw);
        let dx = digits_value(x);
        assert(10 * (dx * pw + digits_value(yl)) == dx * (10 * pw) + 10 * digits_value(yl))
            by (nonlinear_arith);
    }
}

proof fn lemma_digits_zero(d: Seq<char>)
    requires
        all_digits(d),
    ensures
        digits_value(d) == 0 <==> forall|i: int| 0 <= i < d.len() ==> #[trigger] d[i] == '0',
    decreases d.len(),
{
    if d.len() > 0 {
        let dl = d.drop_last();
        assert(all_digits(dl)) by {
            assert forall|i: int| 0 <= i < dl.len() implies is_digit(#[trigger] dl[i]) by {
                assert(dl[i] == d[i]);
            }
        }
        lemma_digits_zero(dl);
        lemma_digits_value_nonneg(dl);
        assert(is_digit(d.last()));
        if forall|i: int| 0 <= i < d.len() ==> #[trigger] d[i] == '0' {
            assert forall|i: int| 0 <= i < dl.len() implies #[trigger] dl[i] == '0' by {
                assert(dl[i] == d[i]);
            }
            assert(d[d.len() - 1] == '0');
        }
        if digits_value(d) == 0 {
            assert forall|i: int| 0 <= i < d.len() implies #[trigger] d[i] == '0' by {
                if i < d.len() - 1 {
                    assert(d[i] == dl[i]);
                }
            }
        }
    }
}

proof fn lemma_digits_below(d: Seq<char>)
    requires
        all_digits(d),
    ensures
        digits_value(d) < pow10(d.len()),
    decreases d.len(),
{
    if d.len() > 0 {
        let dl = d.drop_last();
        assert(all_digits(dl)) by {
            assert forall|i: int| 0 <= i < dl.len() implies is_digit(#[trigger] dl[i]) by {
                assert(dl[i] == d[i]);
            }
        }
        lemma_digits_below(dl);
        assert(is_digit(d.last()));
    }
}

/// `x / d` is below `c` when `x` is below `c` times `d`.
proof fn lemma_div_below(x: int, d: int, c: int)
    requires
        d >= 1,
        x < c * d,
    ensures
        x / d < c,
{
    vstd::arithmetic::div_mod::lemma_fundamental_div_mod(x, d);
    let f = x / d;
    let r = x % d;
    if f >= c {
        assert(x >= c * d) by (nonlinear_arith)
            requires
                x == d * f + r,
                r >= 0,
                f >= c,
                d >= 1,
        ;
    }
}

proof fn lemma_two_pow_below_pow10(j: nat)
    requires
        j >= 1,
    ensures
        two_pow(43 * j) < pow10(13 * j),
    decreases j,
{
    assert(two_pow(43) == 8796093022208) by {
        reveal_with_fuel(two_pow, 44);
    }
    assert(pow10(13) == 10_000_000_000_000) by {
        reveal_with_fuel(pow10, 14);
    }
    if j > 1 {
        lemma_two_pow_below_pow10((j - 1) as nat);
        lemma_two_pow_adds(43 * (j - 1) as nat, 43);
        lemma_pow10_adds(13 * (j - 1) as nat, 13);
        assert(43 * (j - 1) + 43 == 43 * j);
        assert(13 * (j - 1) + 13 == 13 * j);
        lemma_two_pow_pos(43 * (j - 1) as nat);
        let x = two_pow(43 * (j - 1) as nat);
        let y = pow10(13 * (j - 1) as nat);
        assert(x * 8796093022208 < y * 10_000_000_000_000) by (nonlinear_arith)
            requires
                1 <= x < y,
        ;
    }
}

/// The decimal digits of `d` least significant first, after `z` zeros: the
/// number `d` spells times ten to the power `z`.
fn build_le(d: &[char], z: usize) -> (r: Vec<u8>)
    requires
        all_digits(d@),
    ensures
        le_digits(r@),
        r@.len() == z + d@.len(),
        le_value(r@) == pow10(z as nat) * digits_value(d@),
{
    let mut v: Vec<u8> = Vec::new();
    let mut i: usize = 0;
    while i < z
        invariant
            i <= z,
            v@.len() == i,
            le_digits(v@),
            le_value(v@) == 0,
        decreases z - i,
    {
        let ghost old_v = v@;
        v.push(0);
        proof {
            lemma_le_push(old_v, 0);
        }
        i += 1;
    }
    let n = d.len();
    let mut j: usize = 0;
    assert(d@.subrange(n as int, n as int) =~= Seq::<char>::empty());
    while j < n
        invariant
            j <= n == d@.len(),
            all_digits(d@),
            v@.len() == z + j,
            le_digits(v@),
            le_value(v@) == pow10(z as nat) * digits_value(d@.subrange(n - j, n as int)),
        decreases n - j,
    {
        let c = d[n - 1 - j];
        assert(is_digit(c));
        let x: u8 = (c as u32 - '0' as u32) as u8;
        let ghost old_v = v@;
        v.push(x);
        proof {
            lemma_le_push(old_v, x);
            let sub = d@.subrange(n - j, n as int);
            let sub2 = d@.subrange(n - j - 1, n as int);
            assert(sub2 =~= seq![c] + sub);
            lemma_digits_concat(seq![c], sub);
            assert(seq![c].drop_last() =~= Seq::<char>::empty());
            assert(seq![c].last() == c);
            assert(digits_value(Seq::<char>::empty()) == 0);
            assert(digits_value(seq![c]) == 10 * digits_value(seq![c].drop_last()) + digit_val(
                seq![c].last(),
            ));
            lemma_pow10_adds(z as nat, j as nat);
            let pz = pow10(z as nat);
            let pj = pow10(j as nat);
            assert(pz * (x * pj + digits_value(sub)) == pz * digits_value(sub) + x * (pz * pj))
                by (nonlinear_arith);
        }
        j += 1;
    }
    assert(d@.subrange(0, n as int) =~= d@);
    v
}

/// The rounding step, from the integer parts and remainders of `a` times two
/// to the power `k` over `b` and of twice that.
#[verifier::rlimit(80)]
proof fn lemma_nearest_from_parts(
    a: int,
    b: int,
    k: nat,
    ly: int,
    lo: int,
    h: int,
    h2: int,
    lo2: int,
)
    requires
        a >= 0,
        b >= 1,
        k <= 1074,
        ly == a * two_pow(k),
        ly == lo + b * h,
        0 <= lo < b,
        0 <= h < 0x20_0000_0000_0000,
        k < 1074 ==> h >= 0x10_0000_0000_0000,
        2 * ly == lo2 + b * h2,
        0 <= lo2 < b,
    ensures
        nearest_binary64(a, b) == (
            if h2 == 2 * h + 1 && (lo2 != 0 || h % 2 == 1) {
                h + 1
            } else {
                h
            },
            -(k as int),
        ),
{
    assert(ly == h * b + lo) by (nonlinear_arith)
        requires
            ly == lo + b * h,
    ;
    vstd::arithmetic::div_mod::lemma_fundamental_div_mod_converse(ly, b, h, lo);
    assert(2 * ly == h2 * b + lo2) by (nonlinear_arith)
        requires
            2 * ly == lo2 + b * h2,
    ;
    vstd::arithmetic::div_mod::lemma_fundamental_div_mod_converse(2 * ly, b, h2, lo2);
    if 2 * lo >= b {
        assert(2 * ly == (2 * h + 1) * b + (2 * lo - b)) by (nonlinear_arith)
            requires
                ly == h * b + lo,
        ;
        vstd::arithmetic::div_mod::lemma_fundamental_div_mod_converse(
            2 * ly,
            b,
            2 * h + 1,
            2 * lo - b,
        );
    } else {
        assert(2 * ly == (2 * h) * b + 2 * lo) by (nonlinear_arith)
            requires
                ly == h * b + lo,
        ;
        vstd::arithmetic::div_mod::lemma_fundamental_div_mod_converse(2 * ly, b, 2 * h, 2 * lo);
    }
    let rest = (1074 - k) as nat;
    lemma_two_pow_adds(k, rest);
    lemma_two_pow_adds(53, rest);
    lemma_two_pow_adds(52, rest);
    lemma_two_pow_pos(rest);
    lemma_two_pow_values();
    lemma_two_pow_values();
    let pr = two_pow(rest);
    assert(k + rest == 1074);
    assert((-(k as int) + 1127) as nat == 53 + rest);
    assert((-(k as int) + 1126) as nat == 52 + rest);
    assert(ly < b * two_pow(53)) by (nonlinear_arith)
        requires
            ly == lo + b * h,
            lo < b,
            h < 0x20_0000_0000_0000,
            two_pow(53) == 0x20_0000_0000_0000,
            b >= 1,
            h >= 0,
            lo >= 0,
    ;
    assert(a * two_pow(1074) < b * two_pow(53 + rest)) by (nonlinear_arith)
        requires
            ly == a * two_pow(k),
            two_pow(1074) == two_pow(k) * pr,
            two_pow(53 + rest) == two_pow(53) * pr,
            ly < b * two_pow(53),
            pr >= 1,
    ;
    if k < 1074 {
        assert(ly >= b * two_pow(52)) by (nonlinear_arith)
            requires
                ly == lo + b * h,
                lo >= 0,
                h >= 0x10_0000_0000_0000,
                b >= 1,
                two_pow(52) == 0x10_0000_0000_0000,
        ;
        assert(a * two_pow(1074) >= b * two_pow(52 + rest)) by (nonlinear_arith)
            requires
                ly == a * two_pow(k),
                two_pow(1074) == two_pow(k) * pr,
                two_pow(52 + rest) == two_pow(52) * pr,
                ly >= b * two_pow(52),
                pr >= 1,
        ;
    }
    assert(exponent_fits(a, b, -(k as int)));
    lemma_exponent_unique(a, b, -(k as int));
    assert(scaled_fraction(a, b, -(k as int)) == (ly, b));
}

/// One doubling inside [`binary_of_le`]: the integer part at most doubles
/// (plus one) and the value keeps being `a` times a power of two.
proof fn lemma_double_step(old_y: Seq<u8>, y: Seq<u8>, f: int, a: int, b: int, k: nat)
    requires
        le_digits(old_y),
        le_digits(y),
        f >= 0,
        b == pow10(f as nat),
        k >= 1,
        le_value(old_y) == a * two_pow((k - 1) as nat),
        le_value(y) == 2 * le_value(old_y),
    ensures
        high_of(y, f) < 2 * high_of(old_y, f) + 2,
        le_value(y) == a * two_pow(k),
{
    lemma_split_at(old_y, f);
    lemma_split_at(y, f);
    lemma_pow10_pos(f as nat);
    let lo = low_of(old_y, f);
    let h = high_of(old_y, f);
    let lo2 = low_of(y, f);
    let h2 = high_of(y, f);
    assert(h2 < 2 * h + 2) by (nonlinear_arith)
        requires
            lo2 + b * h2 == 2 * (lo + b * h),
            0 <= lo < b,
            0 <= lo2,
            b >= 1,
    ;
    assert(two_pow(k) == 2 * two_pow((k - 1) as nat));
    assert(2 * (a * two_pow((k - 1) as nat)) == a * two_pow(k)) by (nonlinear_arith)
        requires
            two_pow(k) == 2 * two_pow((k - 1) as nat),
    ;
}

/// The significand and the negated exponent of the binary64 number nearest to
/// `a / b`, where `y` holds `a` (least significant digit first), `b` is ten to
/// the power `f`, and the integer part `hi0` of `a / b` is below two to the
/// power 32.
#[verifier::rlimit(30)]
fn binary_of_le(y: Vec<u8>, f: u128, hi0: u64, Ghost(a): Ghost<int>, Ghost(b): Ghost<int>) -> (r: (
    u64,
    u32,
))
    requires
        le_digits(y@),
        le_value(y@) == a,
        a >= 0,
        b == pow10(f as nat),
        b >= 1,
        hi0 == high_of(y@, f as int),
        hi0 < 0x1_0000_0000,
    ensures
        r.1 <= 1074,
        r.0 <= two_pow(53),
        nearest_binary64(a, b) == (r.0 as int, -(r.1 as int)),
{
    let mut y = y;
    let mut k: u32 = 0;
    let mut hi: u64 = hi0;
    assert(two_pow(0) == 1);
    assert(a * 1 == a);
    while k < 1074 && hi < 0x10_0000_0000_0000
        invariant
            k <= 1074,
            le_digits(y@),
            b == pow10(f as nat),
            b >= 1,
            a >= 0,
            le_value(y@) == a * two_pow(k as nat),
            hi == high_of(y@, f as int),
            hi < 0x20_0000_0000_0000,
        decreases 1074 - k,
    {
        let ghost old_y = y@;
        y = double_le(&y);
        k += 1;
        hi = high_part(&y, f);
        proof {
            lemma_double_step(old_y, y@, f as int, a, b, k as nat);
        }
    }
    let z2 = double_le(&y);
    let hi2 = high_part(&z2, f);
    let low_zero = low_is_zero(&z2, f);
    proof {
        lemma_split_at(y@, f as int);
        lemma_split_at(z2@, f as int);
        lemma_nearest_from_parts(
            a,
            b,
            k as nat,
            le_value(y@),
            low_of(y@, f as int),
            hi as int,
            high_of(z2@, f as int),
            low_of(z2@, f as int),
        );
    }
    let up = hi2 == 2 * hi + 1 && (!low_zero || hi % 2 == 1);
    let m: u64 = if up {
        hi + 1
    } else {
        hi
    };
    proof {
        lemma_two_pow_values();
    }
    (m, k)
}

/// How the decimal value `0.d` times ten to the power `p` reads as a binary64
/// number: at least two to the power 32, or as a significand and the power of
/// two it is divided by.
pub enum Magnitude {
    Large,
    Binary(u64, u32),
}

/// [`Magnitude`] of `0.d` times ten to the power `p2`, worked out from `p`,
/// which is `p2` or, where `p2` lies far out, as far out on the same side.
pub(crate) fn classify(d: &[char], p: i128, Ghost(p2): Ghost<int>) -> (r: Magnitude)
    requires
        all_digits(d@),
        p == p2 || (p <= -1000 && p2 <= -1000) || (p >= d@.len() + 10 && p2 >= d@.len() + 10),
    ensures
        ({
            let (a, b) = decimal_fraction(d@, p2);
            &&& a >= 0
            &&& b >= 1
            &&& match r {
                Magnitude::Large => a >= b * two_pow(32),
                Magnitude::Binary(m, k) => k <= 1074 && m <= two_pow(53) && nearest_binary64(a, b)
                    == (m as int, -(k as int)),
            }
        }),
{
    let n = d.len();
    let ghost (a, b) = decimal_fraction(d@, p2);
    let mut all_zero = true;
    let mut i: usize = 0;
    while i < n
        invariant
            i <= n == d@.len(),
            all_zero == forall|t: int| 0 <= t < i ==> #[trigger] d@[t] == '0',
        decreases n - i,
    {
        if d[i] != '0' {
            all_zero = false;
        }
        i += 1;
    }
    let ghost za: nat = if p2 > n { (p2 - n) as nat } else { 0 };
    let ghost fb: nat = if p2 < n { (n - p2) as nat } else { 0 };
    proof {
        lemma_digits_value_nonneg(d@);
        lemma_pow10_pos(za);
        lemma_pow10_pos(fb);
        assert(a == digits_value(d@) * pow10(za));
        assert(b == pow10(fb));
        assert(a >= 0) by (nonlinear_arith)
            requires
                a == digits_value(d@) * pow10(za),
                digits_value(d@) >= 0,
                pow10(za) >= 1,
        ;
        lemma_digits_zero(d@);
    }
    if all_zero {
        proof {
            assert(digits_value(d@) == 0);
            assert(a == 0) by (nonlinear_arith)
                requires
                    a == digits_value(d@) * pow10(za),
                    digits_value(d@) == 0,
            ;
            lemma_nearest_tiny(a, b);
            assert(two_pow(53) >= 0) by {
                lemma_two_pow_pos(53);
            }
        }
        return Magnitude::Binary(0, 1074);
    }
    if p >= n as i128 + 10 {
        proof {
            assert(p2 >= n + 10);
            assert(fb == 0);
            assert(pow10(0) == 1);
            lemma_pow10_adds(10, (za - 10) as nat);
            lemma_pow10_pos((za - 10) as nat);
            assert(pow10(10) == 10_000_000_000) by {
                reveal_with_fuel(pow10, 11);
            }
            lemma_two_pow_values();
            let dv = digits_value(d@);
            assert(dv >= 1);
            assert(a >= two_pow(32)) by (nonlinear_arith)
                requires
                    a == dv * pow10(za),
                    dv >= 1,
                    pow10(za) == 10_000_000_000 * pow10((za - 10) as nat),
                    pow10((za - 10) as nat) >= 1,
                    two_pow(32) == 0x1_0000_0000,
            ;
        }
        return Magnitude::Large;
    }
    if p <= -331 {
        proof {
            assert(p2 <= -331);
            assert(za == 0);
            assert(pow10(0) == 1);
            let dv = digits_value(d@);
            lemma_digits_below(d@);
            lemma_pow10_adds(n as nat, (fb - n) as nat);
            lemma_pow10_adds(331, (fb - n - 331) as nat);
            lemma_pow10_pos((fb - n - 331) as nat);
            lemma_pow10_pos(n as nat);
            lemma_two_pow_below_pow10(25);
            lemma_pow10_pos(325);
            lemma_pow10_pos(331);
            assert(43 * 25 == 1075 && 13 * 25 == 325);
            lemma_pow10_adds(325, 6);
            lemma_pow10_pos(6);
            let pn = pow10(n as nat);
            let pr = pow10((fb - n) as nat);
            assert(pr >= pow10(331)) by (nonlinear_arith)
                requires
                    pr == pow10(331) * pow10((fb - n - 331) as nat),
                    pow10((fb - n - 331) as nat) >= 1,
                    pow10(331) >= 1,
            ;
            assert(two_pow(1075) < pow10(331)) by (nonlinear_arith)
                requires
                    two_pow(1075) < pow10(325),
                    pow10(331) == pow10(325) * pow10(6),
                    pow10(6) >= 1,
                    pow10(325) >= 1,
            ;
            lemma_two_pow_pos(1075);
            assert(a * two_pow(1075) < b) by (nonlinear_arith)
                requires
                    a == dv * 1,
                    0 <= dv < pn,
                    b == pn * pr,
                    pr >= pow10(331),
                    two_pow(1075) < pow10(331),
                    two_pow(1075) >= 1,
            ;
            lemma_nearest_tiny(a, b);
            lemma_two_pow_pos(53);
        }
        return Magnitude::Binary(0, 1074);
    }
    assert(p == p2);
    let z: usize = if p > n as i128 {
        (p - n as i128) as usize
    } else {
        0
    };
    let f: u128 = if p < n as i128 {
        (n as i128 - p) as u128
    } else {
        0
    };
    assert(z == za && f == fb);
    let y = build_le(d, z);
    let hi0 = high_part(&y, f);
    proof {
        lemma_split_at(y@, f as int);
    }
    if hi0 >= 0x1_0000_0000 {
        proof {
            let lo = low_of(y@, f as int);
            let h = high_of(y@, f as int);
            lemma_two_pow_values();
            assert(a >= b * two_pow(32)) by (nonlinear_arith)
                requires
                    a == lo + b * h,
                    lo >= 0,
                    h >= 0x1_0000_0000,
                    b >= 1,
                    two_pow(32) == 0x1_0000_0000,
            ;
        }
        return Magnitude::Large;
    }
    let (m, k) = binary_of_le(y, f, hi0, Ghost(a), Ghost(b));
    Magnitude::Binary(m, k)
}

/// Two to the power `k`.
pub(crate) fn two_pow_u64(k: u32) -> (r: u64)
    requires
        k < 64,
    ensures
        r == two_pow(k as nat),
{
    let mut r: u64 = 1;
    let mut i: u32 = 0;
    while i < k
        invariant
            i <= k < 64,
            r == two_pow(i as nat),
        decreases k - i,
    {
        proof {
            lemma_two_pow_le((i + 1) as nat, 63);
            lemma_two_pow_values();
        }
        r = r * 2;
        i += 1;
    }
    r
}

/// What the binary64 number `m` times two to the power `-k` gives: its
/// integer part, whether its fraction is at least a half, whether it has a
/// fraction, and the integer part of a thousand times it. Such a number is
/// finite.
pub(crate) fn binary_parts(m: u64, k: u32) -> (r: (u64, bool, bool, u64))
    requires
        m <= 0x20_0000_0000_0000,
        k <= 1074,
    ensures
        !overflows(m as int, -(k as int)),
        r.0 <= m,
        r.0 == floor_of(m as int, -(k as int)),
        r.1 == fraction_at_least_half(m as int, -(k as int)),
        r.2 == has_fraction_bits(m as int, -(k as int)),
        r.3 == thousandths_of(m as int, -(k as int)),
{
    proof {
        lemma_two_pow_values();
        lemma_two_pow_le(60, 1024);
        lemma_two_pow_values();
    }
    if k == 0 {
        assert(two_pow(0) == 1);
        assert(m * 1 == m);
        assert(1000 * m * 1 == 1000 * m);
        return (m, false, false, 1000 * m);
    }
    if k >= 64 {
        proof {
            lemma_two_pow_le(64, k as nat);
            lemma_two_pow_values();
            let pk = two_pow(k as nat);
            vstd::arithmetic::div_mod::lemma_fundamental_div_mod_converse(m as int, pk, 0, m as int);
            vstd::arithmetic::div_mod::lemma_fundamental_div_mod_converse(
                1000 * m as int,
                pk,
                0,
                1000 * m as int,
            );
        }
        return (0, false, m != 0, 0);
    }
    let pk = two_pow_u64(k);
    proof {
        lemma_two_pow_pos(k as nat);
    }
    let fl = m / pk;
    let rm = m % pk;
    (fl, 2 * (rm as u128) >= pk as u128, rm != 0, (1000 * m) / pk)
}

/// The powers of two that bound a parsed binary64 number's reading.
pub proof fn lemma_binary64_facts()
    ensures
        two_pow(32) == 0x1_0000_0000,
        two_pow(53) == 0x20_0000_0000_0000,
        two_pow(31) == 0x8000_0000,
        two_pow(7) == 128,
{
    lemma_two_pow_values();
}

/// A non-negative binary64 number below three has fewer than three thousand
/// thousandths.
pub proof fn lemma_thousandths_below(m: int, q: int)
    requires
        m >= 0,
        q <= 0,
        floor_of(m, q) < 3,
    ensures
        0 <= thousandths_of(m, q) < 3000,
{
    if q == 0 {
        assert(two_pow(0) == 1);
        assert(m * 1 == m);
        assert(1000 * m * 1 == 1000 * m);
    } else {
        let pw = two_pow((-q) as nat);
        lemma_two_pow_pos((-q) as nat);
        vstd::arithmetic::div_mod::lemma_fundamental_div_mod(m, pw);
        let f = m / pw;
        let r = m % pw;
        assert(1000 * m < 3000 * pw) by (nonlinear_arith)
            requires
                m == pw * f + r,
                r < pw,
                f < 3,
                pw >= 1,
                f >= 0,
        ;
        lemma_div_below(1000 * m, pw, 3000);
        vstd::arithmetic::div_mod::lemma_fundamental_div_mod(1000 * m, pw);
        assert((1000 * m) / pw >= 0) by {
            vstd::arithmetic::div_mod::lemma_div_pos_is_pos(1000 * m, pw);
        }
    }
}

/// `q` is the exponent of the last significand bit of the single-precision
/// numbers around `n` over two to the power `s` (`n >= 1`): the value lies
/// from two to the power `q + 23` up to, not including, two to the power
/// `q + 24`.
pub open spec fn binary32_exponent_fits(n: int, s: nat, q: int) -> bool {
    &&& q + s + 23 >= 0
    &&& n < two_pow((q + s + 24) as nat)
    &&& n >= two_pow((q + s + 23) as nat)
}

/// The exponent for `n` over two to the power `s` (see
/// [`binary32_exponent_fits`]; there is exactly one).
pub open spec fn binary32_exponent(n: int, s: nat) -> int {
    choose|q: int| binary32_exponent_fits(n, s, q)
}

/// `n` over two to the power `t` rounded to the nearest integer, ties to the
/// even one (exact when `t` is negative).
pub open spec fn round_shift(n: int, t: int) -> int {
    if t >= 0 {
        round_ties_even(n, two_pow(t as nat))
    } else {
        n * two_pow((-t) as nat)
    }
}

/// The single-precision number nearest to `n` over two to the power `s`, for
/// `n >= 1` and values in the normal range: its significand `m` and exponent
/// `q`, the value being `m` times two to the power `q`.
pub open spec fn nearest_binary32(n: int, s: nat) -> (int, int) {
    let q = binary32_exponent(n, s);
    (round_shift(n, q + s), q)
}

/// The least integer not below `m` times two to the power `q` (`m >= 0`).
pub open spec fn ceil_of(m: int, q: int) -> int {
    if q >= 0 {
        m * two_pow(q as nat)
    } else {
        (m + two_pow((-q) as nat) - 1) / two_pow((-q) as nat)
    }
}

proof fn lemma_binary32_exponent_unique(n: int, s: nat, q: int)
    requires
        binary32_exponent_fits(n, s, q),
    ensures
        binary32_exponent(n, s) == q,
{
    let q1 = binary32_exponent(n, s);
    assert(binary32_exponent_fits(n, s, q1));
    if q1 < q {
        lemma_two_pow_le((q1 + s + 24) as nat, (q + s + 23) as nat);
    } else if q < q1 {
        lemma_two_pow_le((q + s + 24) as nat, (q1 + s + 23) as nat);
    }
}

/// The single-precision number nearest to `n` over two to the power `s`
/// (see [`nearest_binary32`]).
pub(crate) fn nearest_binary32_exec(n: u64, s: u32) -> (r: (u64, i32))
    requires
        1 <= n < 0x8000_0000_0000_0000,
        s <= 64,
    ensures
        nearest_binary32(n as int, s as nat) == (r.0 as int, r.1 as int),
        binary32_exponent_fits(n as int, s as nat, r.1 as int),
        0x80_0000 <= r.0 <= 0x100_0000,
        -23 - s <= r.1 <= 39 - s,
{
    proof {
        lemma_two_pow_values();
    }
    let mut j: u32 = 0;
    while j < 63 && two_pow_u64(j) <= n
        invariant
            j <= 63,
            n >= two_pow((j - 1) as nat) || j == 0,
            two_pow(63) == 0x8000_0000_0000_0000,
        decreases 63 - j,
    {
        j += 1;
    }
    proof {
        if j == 63 {
            assert(n < two_pow(63));
        }
        if j == 0 {
            assert(two_pow(0) == 1);
        }
    }
    assert(j >= 1);
    assert(n < two_pow(j as nat));
    let t: i32 = j as i32 - 24;
    let q: i32 = t - s as i32;
    proof {
        assert(binary32_exponent_fits(n as int, s as nat, q as int));
        lemma_binary32_exponent_unique(n as int, s as nat, q as int);
        lemma_two_pow_pos(j as nat);
    }
    if t >= 0 {
        let pw = two_pow_u64(t as u32);
        proof {
            lemma_two_pow_pos(t as nat);
            lemma_two_pow_adds(t as nat, 24);
            vstd::arithmetic::div_mod::lemma_fundamental_div_mod(n as int, pw as int);
            lemma_div_below(n as int, pw as int, 0x100_0000);
            lemma_two_pow_adds(t as nat, 23);
            assert(n >= 0x80_0000 * pw) by (nonlinear_arith)
                requires
                    n >= two_pow((j - 1) as nat),
                    two_pow((j - 1) as nat) == pw * two_pow(23),
                    two_pow(23) == 0x80_0000,
            ;
            lemma_div_at_least(n as int, pw as int, 0x80_0000);
        }
        let f = n / pw;
        let rm = n % pw;
        let up = 2 * (rm as u128) > pw as u128 || (2 * (rm as u128) == pw as u128 && f % 2 == 1);
        let m = if up {
            f + 1
        } else {
            f
        };
        (m, q)
    } else {
        let pw = two_pow_u64((0 - t) as u32);
        proof {
            lemma_two_pow_adds(j as nat, (0 - t) as nat);
            lemma_two_pow_pos((0 - t) as nat);
            assert(j + (0 - t) == 24);
            assert(n * pw < 0x100_0000) by (nonlinear_arith)
                requires
                    n < two_pow(j as nat),
                    two_pow(24) == two_pow(j as nat) * pw,
                    two_pow(24) == 0x100_0000,
                    pw >= 1,
            ;
            lemma_two_pow_adds((j - 1) as nat, (0 - t) as nat);
            assert(n * pw >= 0x80_0000) by (nonlinear_arith)
                requires
                    n >= two_pow((j - 1) as nat),
                    two_pow(23) == two_pow((j - 1) as nat) * pw,
                    two_pow(23) == 0x80_0000,
                    pw >= 1,
            ;
        }
        (n * pw, q)
    }
}

/// The least integer not below `m` times two to the power `q` (see
/// [`ceil_of`]).
pub(crate) fn ceil_of_exec(m: u64, q: i32) -> (r: u64)
    requires
        m <= 0x100_0000,
        -100 <= q <= 12,
    ensures
        r == ceil_of(m as int, q as int),
{
    proof {
        lemma_two_pow_values();
    }
    if q >= 0 {
        let pw = two_pow_u64(q as u32);
        proof {
            lemma_two_pow_le(q as nat, 12);
            assert(two_pow(12) == 4096) by {
                reveal_with_fuel(two_pow, 13);
            }
            assert(m * pw <= 0x100_0000 * 4096) by (nonlinear_arith)
                requires
                    m <= 0x100_0000,
                    pw <= 4096,
            ;
        }
        m * pw
    } else if q <= -25 {
        proof {
            lemma_two_pow_le(25, (-q) as nat);
            assert(two_pow(25) == 0x200_0000) by {
                reveal_with_fuel(two_pow, 26);
            }
            let pw = two_pow((-q) as nat);
            if m == 0 {
                vstd::arithmetic::div_mod::lemma_fundamental_div_mod_converse(pw - 1, pw, 0, pw - 1);
            } else {
                vstd::arithmetic::div_mod::lemma_fundamental_div_mod_converse(
                    m + pw - 1,
                    pw,
                    1,
                    m - 1,
                );
            }
        }
        if m == 0 {
            0
        } else {
            1
        }
    } else {
        let pw = two_pow_u64((0 - q) as u32);
        proof {
            lemma_two_pow_le((0 - q) as nat, 24);
            lemma_two_pow_pos((0 - q) as nat);
            assert(two_pow(24) == 0x100_0000) by {
                reveal_with_fuel(two_pow, 25);
            }
        }
        (m + pw - 1) / pw
    }
}

} // verus!
