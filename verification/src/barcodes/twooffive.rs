//! Interleaved 2 of 5: digits in pairs, the first of each pair in the bars and
//! the second in the spaces.
use vstd::prelude::*;
use crate::barcodes::bit_matrix::{BitMatrix, at_least_one};
use crate::barcodes::code39::{run, code39_narrow, code39_wide};
use crate::barcodes::code128::digits_of;
use crate::text::{chars_of, string_of};
use crate::barcodes::ean13::{digit_values, digit_values_of, lemma_check_complement};

verus! {

/// The five element widths of a digit in Interleaved 2 of 5 (1 wide, 0 narrow).
pub open spec fn i25_pattern(d: int) -> Seq<u8> {
    if d == 0 {
        seq![0u8, 0, 1, 1, 0]
    } else if d == 1 {
        seq![1u8, 0, 0, 0, 1]
    } else if d == 2 {
        seq![0u8, 1, 0, 0, 1]
    } else if d == 3 {
        seq![1u8, 1, 0, 0, 0]
    } else if d == 4 {
        seq![0u8, 0, 1, 0, 1]
    } else if d == 5 {
        seq![1u8, 0, 1, 0, 0]
    } else if d == 6 {
        seq![0u8, 1, 1, 0, 0]
    } else if d == 7 {
        seq![0u8, 0, 0, 1, 1]
    } else if d == 8 {
        seq![1u8, 0, 0, 1, 0]
    } else {
        seq![0u8, 1, 0, 1, 0]
    }
}

fn i25_pattern_of(d: u8) -> (r: Vec<u8>)
    requires
        d < 10,
    ensures
        r@ == i25_pattern(d as int),
{
    if d == 0 {
        let v: Vec<u8> = vec![0u8, 0, 1, 1, 0];
        assert(v@ =~= seq![0u8, 0, 1, 1, 0]);
        v
    } else if d == 1 {
        let v: Vec<u8> = vec![1u8, 0, 0, 0, 1];
        assert(v@ =~= seq![1u8, 0, 0, 0, 1]);
        v
    } else if d == 2 {
        let v: Vec<u8> = vec![0u8, 1, 0, 0, 1];
        assert(v@ =~= seq![0u8, 1, 0, 0, 1]);
        v
    } else if d == 3 {
        let v: Vec<u8> = vec![1u8, 1, 0, 0, 0];
        assert(v@ =~= seq![1u8, 1, 0, 0, 0]);
        v
    } else if d == 4 {
        let v: Vec<u8> = vec![0u8, 0, 1, 0, 1];
        assert(v@ =~= seq![0u8, 0, 1, 0, 1]);
        v
    } else if d == 5 {
        let v: Vec<u8> = vec![1u8, 0, 1, 0, 0];
        assert(v@ =~= seq![1u8, 0, 1, 0, 0]);
        v
    } else if d == 6 {
        let v: Vec<u8> = vec![0u8, 1, 1, 0, 0];
        assert(v@ =~= seq![0u8, 1, 1, 0, 0]);
        v
    } else if d == 7 {
        let v: Vec<u8> = vec![0u8, 0, 0, 1, 1];
        assert(v@ =~= seq![0u8, 0, 0, 1, 1]);
        v
    } else if d == 8 {
        let v: Vec<u8> = vec![1u8, 0, 0, 1, 0];
        assert(v@ =~= seq![1u8, 0, 0, 1, 0]);
        v
    } else {
        let v: Vec<u8> = vec![0u8, 1, 0, 1, 0];
        assert(v@ =~= seq![0u8, 1, 0, 1, 0]);
        v
    }
}

/// The check digit: digits at even positions weigh 3, the others 1.
pub open spec fn i25_check(ds: Seq<u8>) -> u8 {
    ((10 - i25_sum(ds) % 10) % 10) as u8
}

/// The weighted digit sum of the check digit.
pub open spec fn i25_sum(ds: Seq<u8>) -> int
    decreases ds.len(),
{
    if ds.len() == 0 {
        0
    } else {
        i25_sum(ds.drop_last()) + (if (ds.len() - 1) % 2 == 0 {
            3int
        } else {
            1int
        }) * ds.last()
    }
}

/// The digits that are drawn: the check digit appended when asked for or when
/// the count is odd, then a leading zero if the count is still odd.
pub open spec fn i25_digits(ds: Seq<u8>, check: bool) -> Seq<u8> {
    let d1 = if check || ds.len() % 2 == 1 {
        ds.push(i25_check(ds))
    } else {
        ds
    };
    if d1.len() % 2 == 1 {
        seq![0u8] + d1
    } else {
        d1
    }
}

/// The modules of one pair: bars from the first digit, spaces from the second.
pub open spec fn i25_pair(a: int, b: int, narrow: int, wide: int) -> Seq<bool> {
    i25_interleave(i25_pattern(a), i25_pattern(b), 5, narrow, wide)
}

/// The first `k` bar/space couples of a pair.
pub open spec fn i25_interleave(pa: Seq<u8>, pb: Seq<u8>, k: int, narrow: int, wide: int) -> Seq<bool>
    decreases k,
{
    if k <= 0 {
        seq![]
    } else {
        i25_interleave(pa, pb, k - 1, narrow, wide) + run(
            if pa[k - 1] == 1 {
                wide
            } else {
                narrow
            },
            true,
        ) + run(
            if pb[k - 1] == 1 {
                wide
            } else {
                narrow
            },
            false,
        )
    }
}

/// The modules of the first `k` pairs of `ds`.
pub open spec fn i25_pairs(ds: Seq<u8>, k: int, narrow: int, wide: int) -> Seq<bool>
    decreases k,
{
    if k <= 0 {
        seq![]
    } else {
        i25_pairs(ds, k - 1, narrow, wide) + i25_pair(
            ds[2 * (k - 1)] as int,
            ds[2 * (k - 1) + 1] as int,
            narrow,
            wide,
        )
    }
}

/// The whole row: start pattern, the pairs, stop pattern.
pub open spec fn i25_row(ds: Seq<u8>, narrow: int, wide: int) -> Seq<bool> {
    run(narrow, true) + run(narrow, false) + run(narrow, true) + run(narrow, false) + i25_pairs(
        ds,
        (ds.len() / 2) as int,
        narrow,
        wide,
    ) + run(wide, true) + run(narrow, false) + run(narrow, true)
}

fn push_run(v: &mut Vec<bool>, w: usize, bar: bool)
    ensures
        final(v)@ == old(v)@ + run(w as int, bar),
{
    let mut k: usize = 0;
    while k < w
        invariant
            k <= w,
            v@ == old(v)@ + run(k as int, bar),
        decreases w - k,
    {
        v.push(bar);
        proof {
            assert(v@ =~= old(v)@ + run(k as int + 1, bar));
        }
        k += 1;
    }
}

/// The check digit of `ds`.
fn check_digit(ds: &Vec<u8>) -> (c: u8)
    requires
        forall|k: int| 0 <= k < ds@.len() ==> #[trigger] ds@[k] < 10,
    ensures
        c == i25_check(ds@),
        c < 10,
{
    let mut sum: u64 = 0;
    let mut i: usize = 0;
    while i < ds.len()
        invariant
            i <= ds@.len(),
            forall|k: int| 0 <= k < ds@.len() ==> #[trigger] ds@[k] < 10,
            sum == i25_sum(ds@.take(i as int)) % 10,
        decreases ds@.len() - i,
    {
        proof {
            assert(ds@.take(i + 1).drop_last() =~= ds@.take(i as int));
            vstd::arithmetic::div_mod::lemma_add_mod_noop(
                i25_sum(ds@.take(i as int)),
                (if i % 2 == 0 {
                    3int
                } else {
                    1int
                }) * ds@[i as int],
                10,
            );
            vstd::arithmetic::div_mod::lemma_add_mod_noop_right(
                i25_sum(ds@.take(i as int)) % 10,
                (if i % 2 == 0 {
                    3int
                } else {
                    1int
                }) * ds@[i as int],
                10,
            );
            vstd::arithmetic::div_mod::lemma_mod_twice(i25_sum(ds@.take(i as int)), 10);
        }
        if i % 2 == 0 {
            sum = (sum + ds[i] as u64 * 3) % 10;
        } else {
            sum = (sum + ds[i] as u64) % 10;
        }
        i += 1;
    }
    proof {
        assert(ds@.take(ds@.len() as int) =~= ds@);
        vstd::arithmetic::div_mod::lemma_mod_twice(i25_sum(ds@), 10);
    }
    ((10 - sum) % 10) as u8
}

/// The module row of Interleaved 2 of 5 for the digits of `content` (other characters ignored),
/// with narrow elements of `narrow_bar` modules (at least 1) and wide ones of
/// `narrow_bar * wide_bar_ratio` (at least 2). No digits is an error.
pub fn pattern(
    content: &str,
    wide_bar_ratio: i32,
    narrow_bar: i32,
    print_check_digit: bool,
) -> (r: Result<BitMatrix, String>)
    requires
        i32::MIN <= narrow_bar * wide_bar_ratio <= i32::MAX,
    ensures
        ({
            let ds = digit_values(content@);
            let narrow = if narrow_bar >= 1 {
                narrow_bar as int
            } else {
                1
            };
            let wide = if narrow_bar * wide_bar_ratio >= 2 {
                narrow_bar * wide_bar_ratio
            } else {
                2
            };
            if ds.len() == 0 {
                r matches Err(e) && e@ == "Interleaved 2 of 5: no digits provided"@
            } else {
                r matches Ok(m) && m.wf() && m.spec_height() == 1 && m.cells() == i25_row(
                    i25_digits(ds, print_check_digit),
                    narrow,
                    wide,
                ) && m.spec_width() == m.cells().len()
            }
        }),
{
    let mut ds = digit_values_of(content);
    if ds.len() == 0 {
        return Err("Interleaved 2 of 5: no digits provided".to_owned());
    }
    let ghost d0 = ds@;
    if print_check_digit || ds.len() % 2 == 1 {
        let c = check_digit(&ds);
        ds.push(c);
    }
    let ghost d1 = ds@;
    if ds.len() % 2 == 1 {
        ds.insert(0, 0);
        proof {
            assert(ds@ =~= seq![0u8] + d1);
        }
    }
    assert(ds@ == i25_digits(d0, print_check_digit));
    assert(forall|k: int| 0 <= k < ds@.len() ==> #[trigger] ds@[k] < 10) by {
        assert forall|k: int| 0 <= k < ds@.len() implies #[trigger] ds@[k] < 10 by {
            if d1.len() % 2 == 1 {
                if k > 0 {
                    assert(ds@[k] == d1[k - 1]);
                }
            }
        }
    }
    let narrow: usize = if narrow_bar >= 1 {
        narrow_bar as usize
    } else {
        1
    };
    let prod = narrow_bar * wide_bar_ratio;
    let wide: usize = if prod >= 2 {
        prod as usize
    } else {
        2
    };
    let mut row: Vec<bool> = Vec::new();
    push_run(&mut row, narrow, true);
    push_run(&mut row, narrow, false);
    push_run(&mut row, narrow, true);
    push_run(&mut row, narrow, false);
    let ghost start = row@;
    let n = ds.len();
    let pair_count = n / 2;
    let mut p: usize = 0;
    while p < pair_count
        invariant
            p <= pair_count,
            n == ds@.len(),
            pair_count == n / 2,
            forall|k: int| 0 <= k < ds@.len() ==> #[trigger] ds@[k] < 10,
            row@ == start + i25_pairs(ds@, p as int, narrow as int, wide as int),
        decreases pair_count - p,
    {
        let a = ds[2 * p];
        let b = ds[2 * p + 1];
        let bars = i25_pattern_of(a);
        let spaces = i25_pattern_of(b);
        let ghost before = row@;
        let mut i: usize = 0;
        while i < 5
            invariant
                i <= 5,
                bars@ == i25_pattern(a as int),
                spaces@ == i25_pattern(b as int),
                a < 10,
                b < 10,
                row@ == before + i25_interleave(bars@, spaces@, i as int, narrow as int, wide as int),
            decreases 5 - i,
        {
            assert(bars@.len() == 5 && spaces@.len() == 5);
            let bw = if bars[i] == 1 {
                wide
            } else {
                narrow
            };
            let sw = if spaces[i] == 1 {
                wide
            } else {
                narrow
            };
            push_run(&mut row, bw, true);
            push_run(&mut row, sw, false);
            proof {
                assert(row@ =~= before + i25_interleave(
                    bars@,
                    spaces@,
                    i + 1,
                    narrow as int,
                    wide as int,
                ));
            }
            i += 1;
        }
        proof {
            assert(row@ =~= start + i25_pairs(ds@, p + 1, narrow as int, wide as int));
        }
        p += 1;
    }
    push_run(&mut row, wide, true);
    push_run(&mut row, narrow, false);
    push_run(&mut row, narrow, true);
    proof {
        assert(row@ =~= i25_row(ds@, narrow as int, wide as int));
    }
    Ok(BitMatrix::from_row(row))
}


/// Interleaved 2 of 5 for the digits of `content` drawn one pixel per module
/// and `height` pixels tall (at least 1); see [`pattern`].
pub fn encode(
    content: &str,
    height: i32,
    wide_bar_ratio: i32,
    narrow_bar: i32,
    print_check_digit: bool,
) -> (r: Result<BitMatrix, String>)
    requires
        i32::MIN <= narrow_bar * wide_bar_ratio <= i32::MAX,
        i25_row(
            i25_digits(digit_values(content@), print_check_digit),
            code39_narrow(narrow_bar),
            code39_wide(narrow_bar, wide_bar_ratio),
        ).len() * at_least_one(height) <= usize::MAX,
    ensures
        ({
            let ds = digit_values(content@);
            if ds.len() == 0 {
                r matches Err(e) && e@ == "Interleaved 2 of 5: no digits provided"@
            } else {
                r matches Ok(img) && img.is_bars(
                    i25_row(
                        i25_digits(ds, print_check_digit),
                        code39_narrow(narrow_bar),
                        code39_wide(narrow_bar, wide_bar_ratio),
                    ),
                    1,
                    at_least_one(height),
                )
            }
        }),
{
    let bm = pattern(content, wide_bar_ratio, narrow_bar, print_check_digit)?;
    let h: usize = if height > 1 { height as usize } else { 1 };
    proof {
        assert(bm.spec_width() * 1 <= usize::MAX && bm.spec_width() * 1 * h <= usize::MAX)
            by (nonlinear_arith)
            requires
                bm.spec_width() * h <= usize::MAX,
                h >= 1,
        ;
    }
    Ok(bm.to_1d_image(1, h))
}


/// Each digit's five elements have exactly two wide ones, and reading the
/// wide positions with the weights 1, 2, 4, 7, 0 gives the digit back (a
/// total of 11 standing for 0), as the standard decodes them.
pub proof fn lemma_i25_patterns_decode(d: int)
    requires
        0 <= d < 10,
    ensures
        i25_pattern(d).len() == 5,
        i25_pattern(d)[0] + i25_pattern(d)[1] + i25_pattern(d)[2] + i25_pattern(d)[3]
            + i25_pattern(d)[4] == 2,
        ({
            let p = i25_pattern(d);
            let v = p[0] + 2 * p[1] + 4 * p[2] + 7 * p[3];
            (if v == 11 {
                0
            } else {
                v
            }) == d
        }),
{
}

/// The Interleaved 2 of 5 check digit weighs the data digits 3, 1, 3, 1, ...
/// from the first: no digits check to 0, and appending digit `d` at place `n`
/// moves the check digit down by `3 d` when `n` is even and by `d` when `n` is
/// odd, modulo ten. So three digits `a b c` check to the digit that completes
/// `3 a + b + 3 c` to a multiple of ten (for `123`, 14, so 6).
pub proof fn lemma_i25_check_weights(ds: Seq<u8>, d: u8, a: u8, b: u8, c: u8)
    ensures
        i25_check(Seq::<u8>::empty()) == 0,
        (i25_check(ds.push(d)) + (if ds.len() % 2 == 0 {
            3 * d
        } else {
            d as int
        }) - i25_check(ds)) % 10 == 0,
        (3 * a + b + 3 * c + i25_check(seq![a, b, c])) % 10 == 0,
        i25_check(seq![a, b, c]) < 10,
{
    assert(ds.push(d).drop_last() =~= ds);
    let s0 = i25_sum(ds);
    let w = if ds.len() % 2 == 0 {
        3 * d
    } else {
        d as int
    };
    lemma_check_complement(s0);
    lemma_check_complement(s0 + w);
    let c0 = (10 - s0 % 10) % 10;
    let c1 = (10 - (s0 + w) % 10) % 10;
    let k0 = (c0 + s0) / 10;
    let k1 = (c1 + s0 + w) / 10;
    assert(c1 + w - c0 == (k1 - k0) * 10);
    vstd::arithmetic::div_mod::lemma_mod_multiples_basic(k1 - k0, 10);
    let t = seq![a, b, c];
    assert(t.drop_last() =~= seq![a, b]);
    assert(seq![a, b].drop_last() =~= seq![a]);
    assert(seq![a].drop_last() =~= Seq::<u8>::empty());
    assert(i25_sum(Seq::<u8>::empty()) == 0);
    assert(seq![a].last() == a);
    assert(i25_sum(seq![a]) == 3 * a);
    assert(seq![a, b].last() == b);
    assert(i25_sum(seq![a, b]) == 3 * a + b);
    assert(t.last() == c);
    assert(i25_sum(t) == 3 * a + b + 3 * c);
    lemma_check_complement(3 * a + b + 3 * c);
}

/// The check digit completes the weighted digit sum to a multiple of ten.
pub proof fn lemma_i25_check_completes(ds: Seq<u8>)
    ensures
        (i25_sum(ds) + i25_check(ds)) % 10 == 0,
{
    let s = i25_sum(ds);
    assert(0 <= (10 - s % 10) % 10 < 10);
}

/// The ASCII digits of the field data, in order: what an Interleaved 2 of 5
/// symbol encodes and prints.
pub fn digit_text(content: &str) -> (r: String)
    ensures
        r@ == digits_of(content@),
{
    let c = chars_of(content);
    let mut v: Vec<char> = Vec::new();
    let mut i: usize = 0;
    while i < c.len()
        invariant
            i <= c.len(),
            v@ == digits_of(c@.take(i as int)),
        decreases c.len() - i,
    {
        let ghost t = c@.take(i + 1);
        assert(t.drop_last() == c@.take(i as int));
        assert(t.last() == c@[i as int]);
        if '0' <= c[i] && c[i] <= '9' {
            v.push(c[i]);
        }
        i += 1;
    }
    assert(c@.take(c.len() as int) == c@);
    string_of(&v)
}

} // verus!
