//! EAN-13: twelve data digits and a check digit in 95 modules.
use vstd::prelude::*;
use crate::barcodes::bit_matrix::{BitMatrix, at_least_one};
use crate::text::{chars_of, decimal, decimal_string, digit_val};
use crate::parsers::binary64::{
    ceil_of, ceil_of_exec, lemma_binary64_facts, lemma_two_pow_le, lemma_two_pow_pos,
    nearest_binary32, nearest_binary32_exec, two_pow, two_pow_u64,
};

verus! {

/// The odd-parity (L) modules of a digit.
pub open spec fn ean_l(d: int) -> Seq<u8> {
    if d == 0 {
        seq![0u8, 0, 0, 1, 1, 0, 1]
    } else if d == 1 {
        seq![0u8, 0, 1, 1, 0, 0, 1]
    } else if d == 2 {
        seq![0u8, 0, 1, 0, 0, 1, 1]
    } else if d == 3 {
        seq![0u8, 1, 1, 1, 1, 0, 1]
    } else if d == 4 {
        seq![0u8, 1, 0, 0, 0, 1, 1]
    } else if d == 5 {
        seq![0u8, 1, 1, 0, 0, 0, 1]
    } else if d == 6 {
        seq![0u8, 1, 0, 1, 1, 1, 1]
    } else if d == 7 {
        seq![0u8, 1, 1, 1, 0, 1, 1]
    } else if d == 8 {
        seq![0u8, 1, 1, 0, 1, 1, 1]
    } else {
        seq![0u8, 0, 0, 1, 0, 1, 1]
    }
}

fn ean_l_of(d: u8) -> (r: Vec<u8>)
    requires
        d < 10,
    ensures
        r@ == ean_l(d as int),
{
    if d == 0 {
        let v: Vec<u8> = vec![0u8, 0, 0, 1, 1, 0, 1];
        assert(v@ =~= seq![0u8, 0, 0, 1, 1, 0, 1]);
        v
    } else if d == 1 {
        let v: Vec<u8> = vec![0u8, 0, 1, 1, 0, 0, 1];
        assert(v@ =~= seq![0u8, 0, 1, 1, 0, 0, 1]);
        v
    } else if d == 2 {
        let v: Vec<u8> = vec![0u8, 0, 1, 0, 0, 1, 1];
        assert(v@ =~= seq![0u8, 0, 1, 0, 0, 1, 1]);
        v
    } else if d == 3 {
        let v: Vec<u8> = vec![0u8, 1, 1, 1, 1, 0, 1];
        assert(v@ =~= seq![0u8, 1, 1, 1, 1, 0, 1]);
        v
    } else if d == 4 {
        let v: Vec<u8> = vec![0u8, 1, 0, 0, 0, 1, 1];
        assert(v@ =~= seq![0u8, 1, 0, 0, 0, 1, 1]);
        v
    } else if d == 5 {
        let v: Vec<u8> = vec![0u8, 1, 1, 0, 0, 0, 1];
        assert(v@ =~= seq![0u8, 1, 1, 0, 0, 0, 1]);
        v
    } else if d == 6 {
        let v: Vec<u8> = vec![0u8, 1, 0, 1, 1, 1, 1];
        assert(v@ =~= seq![0u8, 1, 0, 1, 1, 1, 1]);
        v
    } else if d == 7 {
        let v: Vec<u8> = vec![0u8, 1, 1, 1, 0, 1, 1];
        assert(v@ =~= seq![0u8, 1, 1, 1, 0, 1, 1]);
        v
    } else if d == 8 {
        let v: Vec<u8> = vec![0u8, 1, 1, 0, 1, 1, 1];
        assert(v@ =~= seq![0u8, 1, 1, 0, 1, 1, 1]);
        v
    } else {
        let v: Vec<u8> = vec![0u8, 0, 0, 1, 0, 1, 1];
        assert(v@ =~= seq![0u8, 0, 0, 1, 0, 1, 1]);
        v
    }
}

/// The even-parity (G) modules of a digit.
pub open spec fn ean_g(d: int) -> Seq<u8> {
    if d == 0 {
        seq![0u8, 1, 0, 0, 1, 1, 1]
    } else if d == 1 {
        seq![0u8, 1, 1, 0, 0, 1, 1]
    } else if d == 2 {
        seq![0u8, 0, 1, 1, 0, 1, 1]
    } else if d == 3 {
        seq![0u8, 1, 0, 0, 0, 0, 1]
    } else if d == 4 {
        seq![0u8, 0, 1, 1, 1, 0, 1]
    } else if d == 5 {
        seq![0u8, 1, 1, 1, 0, 0, 1]
    } else if d == 6 {
        seq![0u8, 0, 0, 0, 1, 0, 1]
    } else if d == 7 {
        seq![0u8, 0, 1, 0, 0, 0, 1]
    } else if d == 8 {
        seq![0u8, 0, 0, 1, 0, 0, 1]
    } else {
        seq![0u8, 0, 1, 0, 1, 1, 1]
    }
}

fn ean_g_of(d: u8) -> (r: Vec<u8>)
    requires
        d < 10,
    ensures
        r@ == ean_g(d as int),
{
    if d == 0 {
        let v: Vec<u8> = vec![0u8, 1, 0, 0, 1, 1, 1];
        assert(v@ =~= seq![0u8, 1, 0, 0, 1, 1, 1]);
        v
    } else if d == 1 {
        let v: Vec<u8> = vec![0u8, 1, 1, 0, 0, 1, 1];
        assert(v@ =~= seq![0u8, 1, 1, 0, 0, 1, 1]);
        v
    } else if d == 2 {
        let v: Vec<u8> = vec![0u8, 0, 1, 1, 0, 1, 1];
        assert(v@ =~= seq![0u8, 0, 1, 1, 0, 1, 1]);
        v
    } else if d == 3 {
        let v: Vec<u8> = vec![0u8, 1, 0, 0, 0, 0, 1];
        assert(v@ =~= seq![0u8, 1, 0, 0, 0, 0, 1]);
        v
    } else if d == 4 {
        let v: Vec<u8> = vec![0u8, 0, 1, 1, 1, 0, 1];
        assert(v@ =~= seq![0u8, 0, 1, 1, 1, 0, 1]);
        v
    } else if d == 5 {
        let v: Vec<u8> = vec![0u8, 1, 1, 1, 0, 0, 1];
        assert(v@ =~= seq![0u8, 1, 1, 1, 0, 0, 1]);
        v
    } else if d == 6 {
        let v: Vec<u8> = vec![0u8, 0, 0, 0, 1, 0, 1];
        assert(v@ =~= seq![0u8, 0, 0, 0, 1, 0, 1]);
        v
    } else if d == 7 {
        let v: Vec<u8> = vec![0u8, 0, 1, 0, 0, 0, 1];
        assert(v@ =~= seq![0u8, 0, 1, 0, 0, 0, 1]);
        v
    } else if d == 8 {
        let v: Vec<u8> = vec![0u8, 0, 0, 1, 0, 0, 1];
        assert(v@ =~= seq![0u8, 0, 0, 1, 0, 0, 1]);
        v
    } else {
        let v: Vec<u8> = vec![0u8, 0, 1, 0, 1, 1, 1];
        assert(v@ =~= seq![0u8, 0, 1, 0, 1, 1, 1]);
        v
    }
}

/// The right-hand (R) modules of a digit.
pub open spec fn ean_r(d: int) -> Seq<u8> {
    if d == 0 {
        seq![1u8, 1, 1, 0, 0, 1, 0]
    } else if d == 1 {
        seq![1u8, 1, 0, 0, 1, 1, 0]
    } else if d == 2 {
        seq![1u8, 1, 0, 1, 1, 0, 0]
    } else if d == 3 {
        seq![1u8, 0, 0, 0, 0, 1, 0]
    } else if d == 4 {
        seq![1u8, 0, 1, 1, 1, 0, 0]
    } else if d == 5 {
        seq![1u8, 0, 0, 1, 1, 1, 0]
    } else if d == 6 {
        seq![1u8, 0, 1, 0, 0, 0, 0]
    } else if d == 7 {
        seq![1u8, 0, 0, 0, 1, 0, 0]
    } else if d == 8 {
        seq![1u8, 0, 0, 1, 0, 0, 0]
    } else {
        seq![1u8, 1, 1, 0, 1, 0, 0]
    }
}

fn ean_r_of(d: u8) -> (r: Vec<u8>)
    requires
        d < 10,
    ensures
        r@ == ean_r(d as int),
{
    if d == 0 {
        let v: Vec<u8> = vec![1u8, 1, 1, 0, 0, 1, 0];
        assert(v@ =~= seq![1u8, 1, 1, 0, 0, 1, 0]);
        v
    } else if d == 1 {
        let v: Vec<u8> = vec![1u8, 1, 0, 0, 1, 1, 0];
        assert(v@ =~= seq![1u8, 1, 0, 0, 1, 1, 0]);
        v
    } else if d == 2 {
        let v: Vec<u8> = vec![1u8, 1, 0, 1, 1, 0, 0];
        assert(v@ =~= seq![1u8, 1, 0, 1, 1, 0, 0]);
        v
    } else if d == 3 {
        let v: Vec<u8> = vec![1u8, 0, 0, 0, 0, 1, 0];
        assert(v@ =~= seq![1u8, 0, 0, 0, 0, 1, 0]);
        v
    } else if d == 4 {
        let v: Vec<u8> = vec![1u8, 0, 1, 1, 1, 0, 0];
        assert(v@ =~= seq![1u8, 0, 1, 1, 1, 0, 0]);
        v
    } else if d == 5 {
        let v: Vec<u8> = vec![1u8, 0, 0, 1, 1, 1, 0];
        assert(v@ =~= seq![1u8, 0, 0, 1, 1, 1, 0]);
        v
    } else if d == 6 {
        let v: Vec<u8> = vec![1u8, 0, 1, 0, 0, 0, 0];
        assert(v@ =~= seq![1u8, 0, 1, 0, 0, 0, 0]);
        v
    } else if d == 7 {
        let v: Vec<u8> = vec![1u8, 0, 0, 0, 1, 0, 0];
        assert(v@ =~= seq![1u8, 0, 0, 0, 1, 0, 0]);
        v
    } else if d == 8 {
        let v: Vec<u8> = vec![1u8, 0, 0, 1, 0, 0, 0];
        assert(v@ =~= seq![1u8, 0, 0, 1, 0, 0, 0]);
        v
    } else {
        let v: Vec<u8> = vec![1u8, 1, 1, 0, 1, 0, 0];
        assert(v@ =~= seq![1u8, 1, 1, 0, 1, 0, 0]);
        v
    }
}

/// Which of the six left digits use G modules (1) rather than L (0), by the first digit.
pub open spec fn ean_parity(d: int) -> Seq<u8> {
    if d == 0 {
        seq![0u8, 0, 0, 0, 0, 0]
    } else if d == 1 {
        seq![0u8, 0, 1, 0, 1, 1]
    } else if d == 2 {
        seq![0u8, 0, 1, 1, 0, 1]
    } else if d == 3 {
        seq![0u8, 0, 1, 1, 1, 0]
    } else if d == 4 {
        seq![0u8, 1, 0, 0, 1, 1]
    } else if d == 5 {
        seq![0u8, 1, 1, 0, 0, 1]
    } else if d == 6 {
        seq![0u8, 1, 1, 1, 0, 0]
    } else if d == 7 {
        seq![0u8, 1, 0, 1, 0, 1]
    } else if d == 8 {
        seq![0u8, 1, 0, 1, 1, 0]
    } else {
        seq![0u8, 1, 1, 0, 1, 0]
    }
}

fn ean_parity_of(d: u8) -> (r: Vec<u8>)
    requires
        d < 10,
    ensures
        r@ == ean_parity(d as int),
{
    if d == 0 {
        let v: Vec<u8> = vec![0u8, 0, 0, 0, 0, 0];
        assert(v@ =~= seq![0u8, 0, 0, 0, 0, 0]);
        v
    } else if d == 1 {
        let v: Vec<u8> = vec![0u8, 0, 1, 0, 1, 1];
        assert(v@ =~= seq![0u8, 0, 1, 0, 1, 1]);
        v
    } else if d == 2 {
        let v: Vec<u8> = vec![0u8, 0, 1, 1, 0, 1];
        assert(v@ =~= seq![0u8, 0, 1, 1, 0, 1]);
        v
    } else if d == 3 {
        let v: Vec<u8> = vec![0u8, 0, 1, 1, 1, 0];
        assert(v@ =~= seq![0u8, 0, 1, 1, 1, 0]);
        v
    } else if d == 4 {
        let v: Vec<u8> = vec![0u8, 1, 0, 0, 1, 1];
        assert(v@ =~= seq![0u8, 1, 0, 0, 1, 1]);
        v
    } else if d == 5 {
        let v: Vec<u8> = vec![0u8, 1, 1, 0, 0, 1];
        assert(v@ =~= seq![0u8, 1, 1, 0, 0, 1]);
        v
    } else if d == 6 {
        let v: Vec<u8> = vec![0u8, 1, 1, 1, 0, 0];
        assert(v@ =~= seq![0u8, 1, 1, 1, 0, 0]);
        v
    } else if d == 7 {
        let v: Vec<u8> = vec![0u8, 1, 0, 1, 0, 1];
        assert(v@ =~= seq![0u8, 1, 0, 1, 0, 1]);
        v
    } else if d == 8 {
        let v: Vec<u8> = vec![0u8, 1, 0, 1, 1, 0];
        assert(v@ =~= seq![0u8, 1, 0, 1, 1, 0]);
        v
    } else {
        let v: Vec<u8> = vec![0u8, 1, 1, 0, 1, 0];
        assert(v@ =~= seq![0u8, 1, 1, 0, 1, 0]);
        v
    }
}

/// The values of the ASCII digits of `s`, in order.
pub open spec fn digit_values(s: Seq<char>) -> Seq<u8> {
    crate::barcodes::code128::digits_of(s).map_values(|c: char| digit_val(c) as u8)
}

/// The values of the ASCII digits of `content`.
pub fn digit_values_of(content: &str) -> (r: Vec<u8>)
    ensures
        r@ == digit_values(content@),
        forall|k: int| 0 <= k < r@.len() ==> #[trigger] r@[k] < 10,
{
    let s = chars_of(content);
    let mut r: Vec<u8> = Vec::new();
    let mut i: usize = 0;
    while i < s.len()
        invariant
            i <= s@.len(),
            s@ == content@,
            r@ == digit_values(content@.take(i as int)),
            forall|k: int| 0 <= k < r@.len() ==> #[trigger] r@[k] < 10,
        decreases s@.len() - i,
    {
        let c = s[i];
        proof {
            let t = content@.take(i + 1);
            assert(t.drop_last() =~= content@.take(i as int));
            assert(t.last() == c);
        }
        if '0' <= c && c <= '9' {
            r.push((c as u8) - 48);
            proof {
                assert(r@ =~= digit_values(content@.take(i + 1)));
            }
        } else {
            proof {
                assert(r@ =~= digit_values(content@.take(i + 1)));
            }
        }
        i += 1;
    }
    proof {
        assert(content@.take(s@.len() as int) =~= content@);
    }
    r
}

/// The EAN-13 check digit of the first twelve digits: odd positions weigh 1,
/// even positions 3.
pub open spec fn ean13_check(ds: Seq<u8>) -> int {
    (10 - ean13_sum(ds.take(12)) % 10) % 10
}

/// The weighted digit sum of the EAN-13 check digit.
pub open spec fn ean13_sum(ds: Seq<u8>) -> int
    decreases ds.len(),
{
    if ds.len() == 0 {
        0
    } else {
        ean13_sum(ds.drop_last()) + (if (ds.len() - 1) % 2 == 0 {
            1int
        } else {
            3int
        }) * ds.last()
    }
}

/// The modules of the six left digits (digits 2 to 7), with the parity the
/// first digit selects.
pub open spec fn ean13_left(ds: Seq<u8>, k: int) -> Seq<u8>
    decreases k,
{
    if k <= 0 {
        seq![]
    } else {
        ean13_left(ds, k - 1) + if ean_parity(ds[0] as int)[k - 1] == 0 {
            ean_l(ds[k] as int)
        } else {
            ean_g(ds[k] as int)
        }
    }
}

/// The modules of the right digits: digits 8 to 12, then the check digit.
pub open spec fn ean13_right(ds: Seq<u8>, k: int) -> Seq<u8>
    decreases k,
{
    if k <= 0 {
        seq![]
    } else {
        ean13_right(ds, k - 1) + ean_r(
            if k - 1 < 5 {
                ds[7 + k - 1] as int
            } else {
                ean13_check(ds)
            },
        )
    }
}

/// The 95 modules of EAN-13 for the digits `ds` (the first twelve are used).
pub open spec fn ean13_modules(ds: Seq<u8>) -> Seq<u8> {
    seq![1u8, 0, 1] + ean13_left(ds, 6) + seq![0u8, 1, 0, 1, 0] + ean13_right(ds, 6) + seq![
        1u8,
        0,
        1,
    ]
}

/// The message for too few digits.
pub open spec fn ean13_error(n: nat) -> Seq<char> {
    "EAN-13: need at least 12 digits, got "@ + decimal(n)
}

fn push_all(v: &mut Vec<u8>, w: &Vec<u8>)
    ensures
        final(v)@ == old(v)@ + w@,
{
    let mut k: usize = 0;
    while k < w.len()
        invariant
            k <= w@.len(),
            v@ == old(v)@ + w@.take(k as int),
        decreases w@.len() - k,
    {
        v.push(w[k]);
        proof {
            assert(w@.take(k + 1) =~= w@.take(k as int).push(w@[k as int]));
            assert(v@ =~= old(v)@ + w@.take(k + 1));
        }
        k += 1;
    }
    proof {
        assert(w@.take(w@.len() as int) =~= w@);
    }
}

/// The EAN-13 check digit.
fn calculate_checksum(ds: &Vec<u8>) -> (c: u8)
    requires
        ds@.len() >= 12,
        forall|k: int| 0 <= k < ds@.len() ==> #[trigger] ds@[k] < 10,
    ensures
        c == ean13_check(ds@),
        c < 10,
{
    let mut sum: u32 = 0;
    let mut i: usize = 0;
    while i < 12
        invariant
            i <= 12,
            ds@.len() >= 12,
            forall|k: int| 0 <= k < ds@.len() ==> #[trigger] ds@[k] < 10,
            sum == ean13_sum(ds@.take(i as int)),
            sum <= 27 * i,
        decreases 12 - i,
    {
        proof {
            assert(ds@.take(i + 1).drop_last() =~= ds@.take(i as int));
        }
        if i % 2 == 0 {
            sum = sum + ds[i] as u32;
        } else {
            sum = sum + ds[i] as u32 * 3;
        }
        i += 1;
    }
    ((10 - sum % 10) % 10) as u8
}

/// Converts 0/1 module values to dark/light modules.
fn to_modules(bits: &Vec<u8>) -> (r: Vec<bool>)
    ensures
        r@ == bits@.map_values(|b: u8| b == 1),
{
    let mut r: Vec<bool> = Vec::new();
    let mut k: usize = 0;
    while k < bits.len()
        invariant
            k <= bits@.len(),
            r@ == bits@.take(k as int).map_values(|b: u8| b == 1),
        decreases bits@.len() - k,
    {
        r.push(bits[k] == 1);
        proof {
            assert(bits@.take(k + 1).map_values(|b: u8| b == 1) =~= bits@.take(k as int).map_values(
                |b: u8| b == 1,
            ).push(bits@[k as int] == 1));
        }
        k += 1;
    }
    proof {
        assert(bits@.take(bits@.len() as int) =~= bits@);
    }
    r
}

/// The module row of EAN-13 for the digits of `content` (other characters
/// ignored; the first twelve digits are used and the check digit is computed).
/// Fewer than twelve digits is an error.
pub fn pattern(content: &str) -> (r: Result<BitMatrix, String>)
    ensures
        ({
            let ds = digit_values(content@);
            if ds.len() < 12 {
                r matches Err(e) && e@ == ean13_error(ds.len())
            } else {
                r matches Ok(m) && m.wf() && m.spec_height() == 1 && m.cells()
                    == ean13_modules(ds).map_values(|b: u8| b == 1) && m.spec_width() == 95
            }
        }),
{
    let ds = digit_values_of(content);
    if ds.len() < 12 {
        let mut m = "EAN-13: need at least 12 digits, got ".to_owned();
        let d = decimal_string(ds.len());
        m.append(d.as_str());
        return Err(m);
    }
    let check = calculate_checksum(&ds);
    let parity = ean_parity_of(ds[0]);
    let mut bits: Vec<u8> = vec![1u8, 0, 1];
    assert(bits@ =~= seq![1u8, 0, 1]);
    let ghost b0 = bits@;
    let mut i: usize = 0;
    while i < 6
        invariant
            i <= 6,
            ds@.len() >= 12,
            forall|k: int| 0 <= k < ds@.len() ==> #[trigger] ds@[k] < 10,
            parity@ == ean_parity(ds@[0] as int),
            b0 == seq![1u8, 0, 1],
            bits@ == b0 + ean13_left(ds@, i as int),
        decreases 6 - i,
    {
        assert(parity@.len() == 6) by {
            assert(ds@[0] < 10);
        }
        let digit = ds[i + 1];
        let p = if parity[i] == 0 {
            ean_l_of(digit)
        } else {
            ean_g_of(digit)
        };
        push_all(&mut bits, &p);
        proof {
            assert(bits@ =~= b0 + ean13_left(ds@, i + 1));
        }
        i += 1;
    }
    let center: Vec<u8> = vec![0u8, 1, 0, 1, 0];
    assert(center@ =~= seq![0u8, 1, 0, 1, 0]);
    push_all(&mut bits, &center);
    let ghost b1 = bits@;
    let mut j: usize = 0;
    while j < 6
        invariant
            j <= 6,
            ds@.len() >= 12,
            forall|k: int| 0 <= k < ds@.len() ==> #[trigger] ds@[k] < 10,
            check == ean13_check(ds@),
            check < 10,
            bits@ == b1 + ean13_right(ds@, j as int),
        decreases 6 - j,
    {
        let digit = if j < 5 {
            ds[7 + j]
        } else {
            check
        };
        let p = ean_r_of(digit);
        push_all(&mut bits, &p);
        proof {
            assert(bits@ =~= b1 + ean13_right(ds@, j + 1));
        }
        j += 1;
    }
    let end: Vec<u8> = vec![1u8, 0, 1];
    assert(end@ =~= seq![1u8, 0, 1]);
    push_all(&mut bits, &end);
    proof {
        assert(bits@ =~= ean13_modules(ds@));
        lemma_ean13_length(ds@);
    }
    let row = to_modules(&bits);
    Ok(BitMatrix::from_row(row))
}

proof fn lemma_ean13_length(ds: Seq<u8>)
    requires
        ds.len() >= 12,
        forall|k: int| 0 <= k < ds.len() ==> #[trigger] ds[k] < 10,
    ensures
        ean13_modules(ds).len() == 95,
{
    assert forall|k: int| 0 <= k <= 6 implies #[trigger] ean13_left(ds, k).len() == 7 * k by {
        lemma_left_len(ds, k);
    }
    assert forall|k: int| 0 <= k <= 6 implies #[trigger] ean13_right(ds, k).len() == 7 * k by {
        lemma_right_len(ds, k);
    }
}

proof fn lemma_left_len(ds: Seq<u8>, k: int)
    requires
        0 <= k <= 6,
        ds.len() >= 12,
        forall|j: int| 0 <= j < ds.len() ==> #[trigger] ds[j] < 10,
    ensures
        ean13_left(ds, k).len() == 7 * k,
    decreases k,
{
    if k > 0 {
        lemma_left_len(ds, k - 1);
        assert(ds[0] < 10);
        assert(ds[k] < 10);
    }
}

proof fn lemma_right_len(ds: Seq<u8>, k: int)
    requires
        0 <= k <= 6,
        ds.len() >= 12,
        forall|j: int| 0 <= j < ds.len() ==> #[trigger] ds[j] < 10,
    ensures
        ean13_right(ds, k).len() == 7 * k,
    decreases k,
{
    if k > 0 {
        lemma_right_len(ds, k - 1);
        if k - 1 < 5 {
            assert(ds[7 + k - 1] < 10);
        }
    }
}


/// Module `m` of the 95 belongs to the start, centre or end guard.
pub open spec fn ean13_guard(m: int) -> bool {
    m <= 2 || (45 <= m <= 49) || m >= 92
}

/// The bar height `h` (at least 1) made single precision, times twelve
/// hundredths in single precision (`0.12f32` is 16106127 times two to the
/// power -27), rounded up to a whole number of pixels.
pub open spec fn twelve_hundredths(h: int) -> int {
    let (hm, hq) = nearest_binary32(h, 0);
    let (pm, pq) = if hq >= 0 {
        nearest_binary32(hm * two_pow(hq as nat) * 16106127, 27)
    } else {
        nearest_binary32(hm * 16106127, (27 - hq) as nat)
    };
    ceil_of(pm, pq)
}

/// [`twelve_hundredths`] of the bar height `h`.
pub fn twelve_hundredths_of(h: u64) -> (r: u64)
    requires
        1 <= h < 0x8000_0000,
    ensures
        r == twelve_hundredths(h as int),
{
    let (hm, hq) = nearest_binary32_exec(h, 0);
    proof {
        lemma_binary64_facts();
    }
    proof {
        if hq >= 8 {
            lemma_two_pow_le(31, (hq + 23) as nat);
        }
    }
    let (pm, pq) = if hq >= 0 {
        let pw = two_pow_u64(hq as u32);
        proof {
            lemma_two_pow_le(hq as nat, 7);
            lemma_two_pow_pos(hq as nat);
        }
        assert(hm * pw * 16106127 < 0x8000_0000_0000_0000) by (nonlinear_arith)
            requires
                hm <= 0x100_0000,
                pw <= 128,
        ;
        assert(hm * pw * 16106127 >= 1) by (nonlinear_arith)
            requires
                hm >= 1,
                pw >= 1,
        ;
        nearest_binary32_exec(hm * pw * 16106127, 27)
    } else {
        nearest_binary32_exec(hm * 16106127, (27 - hq) as u32)
    };
    ceil_of_exec(pm, pq)
}

/// How far the guard bars reach below the others: the largest of five
/// modules, [`twelve_hundredths`] of the bar height, and 6 pixels.
pub open spec fn ean13_extension(bw: int, h: int) -> int {
    let a = 5 * bw;
    let b = twelve_hundredths(h);
    let m = if a >= b { a } else { b };
    if m >= 6 {
        m
    } else {
        6
    }
}

/// EAN-13 for the digits of `content` drawn with modules `bar_width` pixels
/// wide (at least 1), bars `height` pixels tall (at least 1) and guard bars
/// longer by [`ean13_extension`]. Fewer than twelve digits is an error.
pub fn encode(content: &str, height: i32, bar_width: i32) -> (r: Result<BitMatrix, String>)
    requires
        digit_values(content@).len() >= 12 ==> 95 * at_least_one(bar_width) * (at_least_one(height) + ean13_extension(
            at_least_one(bar_width),
            at_least_one(height),
        )) <= usize::MAX,
    ensures
        ({
            let ds = digit_values(content@);
            let bw = at_least_one(bar_width);
            let h = at_least_one(height);
            let row = ean13_modules(ds).map_values(|b: u8| b == 1);
            if ds.len() < 12 {
                r matches Err(e) && e@ == ean13_error(ds.len())
            } else {
                r matches Ok(img) && img.wf() && img.spec_width() == 95 * bw && img.spec_height() == h
                    + ean13_extension(bw, h) && forall|x: int, y: int|
                    0 <= x < img.spec_width() && 0 <= y < img.spec_height() ==> #[trigger] img.bit(
                        x,
                        y,
                    ) == (row[x / bw] && (y < h || ean13_guard(x / bw)))
            }
        }),
{
    let bm = pattern(content)?;
    let bw: u64 = if bar_width > 1 { bar_width as u64 } else { 1 };
    let h: u64 = if height > 1 { height as u64 } else { 1 };
    let a: u64 = 5 * bw;
    let b: u64 = twelve_hundredths_of(h);
    let m: u64 = if a >= b { a } else { b };
    let ext: u64 = if m >= 6 { m } else { 6 };
    proof {
        assert(95 * bw <= 95 * bw * (h + ext)) by (nonlinear_arith)
            requires h + ext >= 1, bw >= 1;
        assert(h + ext <= 95 * bw * (h + ext)) by (nonlinear_arith)
            requires h + ext >= 1, bw >= 1;
    }
    let iw: usize = (95 * bw) as usize;
    let ih: usize = (h + ext) as usize;
    let bwu: usize = bw as usize;
    let hu: usize = h as usize;
    let ghost row = bm.cells();
    let ghost g = |x: int, y: int| row[x / bwu as int] && (y < hu || ean13_guard(x / bwu as int));
    let f = |x: usize, y: usize| -> (v: bool)
        requires
            x < iw,
        ensures
            v == (bm.cells()[x as int / bwu as int] && (y < hu || ean13_guard(x as int / bwu as int))),
    {
        let k = x / bwu;
        proof {
            assert(k < 95) by (nonlinear_arith)
                requires
                    x < 95 * bwu,
                    bwu >= 1,
                    k == x / bwu,
            {
                vstd::arithmetic::div_mod::lemma_multiply_divide_lt(x as int, bwu as int, 95);
            }
            assert(0 * 95 + k == k);
        }
        bm.get(k, 0) && (y < hu || k <= 2 || (45 <= k && k <= 49) || k >= 92)
    };
    proof {
        assert(iw * ih <= usize::MAX) by (nonlinear_arith)
            requires iw == 95 * bw, ih == h + ext, 95 * bw * (h + ext) <= usize::MAX;
    }
    Ok(BitMatrix::build(iw, ih, f, Ghost(g)))
}


/// The first digit of EAN-13 is drawn as the L/G parity of the six left
/// digits (L = 0, G = 1), as the standard table gives it: 0 LLLLLL,
/// 1 LLGLGG, 2 LLGGLG, 3 LLGGGL, 4 LGLLGG, 5 LGGLLG, 6 LGGGLL, 7 LGLGLG,
/// 8 LGLGGL, 9 LGGLGL.
pub proof fn lemma_ean_parity_table()
    ensures
        ean_parity(0) == seq![0u8, 0, 0, 0, 0, 0],
        ean_parity(1) == seq![0u8, 0, 1, 0, 1, 1],
        ean_parity(2) == seq![0u8, 0, 1, 1, 0, 1],
        ean_parity(3) == seq![0u8, 0, 1, 1, 1, 0],
        ean_parity(4) == seq![0u8, 1, 0, 0, 1, 1],
        ean_parity(5) == seq![0u8, 1, 1, 0, 0, 1],
        ean_parity(6) == seq![0u8, 1, 1, 1, 0, 0],
        ean_parity(7) == seq![0u8, 1, 0, 1, 0, 1],
        ean_parity(8) == seq![0u8, 1, 0, 1, 1, 0],
        ean_parity(9) == seq![0u8, 1, 1, 0, 1, 0],
{
}

/// A scanner can read the first digit back: distinct first digits give
/// distinct parity patterns, each begins with L, and every first digit but 0
/// uses exactly three G digits.
pub proof fn lemma_ean_parity_readable(d1: int, d2: int)
    requires
        0 <= d1 < 10,
        0 <= d2 < 10,
    ensures
        d1 != d2 ==> ean_parity(d1) != ean_parity(d2),
        ean_parity(d1).len() == 6,
        ean_parity(d1)[0] == 0,
        d1 >= 1 ==> ean_parity(d1)[1] + ean_parity(d1)[2] + ean_parity(d1)[3] + ean_parity(d1)[4]
            + ean_parity(d1)[5] == 3,
{
    lemma_ean_parity_table();
    if d1 != d2 && ean_parity(d1) == ean_parity(d2) {
        let p = ean_parity(d1);
        assert(p[1] == ean_parity(d2)[1] && p[2] == ean_parity(d2)[2] && p[3] == ean_parity(d2)[3]
            && p[4] == ean_parity(d2)[4] && p[5] == ean_parity(d2)[5]);
    }
}

/// The three digit codes of EAN-13 hang together as the standard defines
/// them: each R code is the L code with bars and spaces swapped, each G code
/// is the R code read backwards, L codes begin with a space and end with a
/// bar, and distinct digits have distinct L codes. The L codes are 0 0001101,
/// 1 0011001, 2 0010011, 3 0111101, 4 0100011, 5 0110001, 6 0101111,
/// 7 0111011, 8 0110111, 9 0001011.
pub proof fn lemma_ean_digit_codes(d1: int, d2: int)
    requires
        0 <= d1 < 10,
        0 <= d2 < 10,
    ensures
        ean_l(0) == seq![0u8, 0, 0, 1, 1, 0, 1],
        ean_l(1) == seq![0u8, 0, 1, 1, 0, 0, 1],
        ean_l(2) == seq![0u8, 0, 1, 0, 0, 1, 1],
        ean_l(3) == seq![0u8, 1, 1, 1, 1, 0, 1],
        ean_l(4) == seq![0u8, 1, 0, 0, 0, 1, 1],
        ean_l(5) == seq![0u8, 1, 1, 0, 0, 0, 1],
        ean_l(6) == seq![0u8, 1, 0, 1, 1, 1, 1],
        ean_l(7) == seq![0u8, 1, 1, 1, 0, 1, 1],
        ean_l(8) == seq![0u8, 1, 1, 0, 1, 1, 1],
        ean_l(9) == seq![0u8, 0, 0, 1, 0, 1, 1],
        ean_l(d1).len() == 7 && ean_r(d1).len() == 7 && ean_g(d1).len() == 7,
        forall|i: int| 0 <= i < 7 ==> #[trigger] ean_r(d1)[i] == 1 - ean_l(d1)[i],
        forall|i: int| 0 <= i < 7 ==> #[trigger] ean_g(d1)[i] == ean_r(d1)[6 - i],
        ean_l(d1)[0] == 0 && ean_l(d1)[6] == 1,
        d1 != d2 ==> ean_l(d1) != ean_l(d2),
{
    if d1 != d2 && ean_l(d1) == ean_l(d2) {
        let p = ean_l(d1);
        let q = ean_l(d2);
        assert(p[1] == q[1] && p[2] == q[2] && p[3] == q[3] && p[4] == q[4] && p[5] == q[5]);
    }
}

/// The EAN-13 check digit completes the first twelve digits, weighed 1, 3,
/// 1, 3, ... from the first, to a multiple of ten (for `978014300723` the
/// weighted sum is 100 and the check digit 0).
pub proof fn lemma_ean13_check_weights(ds: Seq<u8>)
    requires
        ds.len() >= 12,
    ensures
        0 <= ean13_check(ds) < 10,
        (ds[0] + 3 * ds[1] + ds[2] + 3 * ds[3] + ds[4] + 3 * ds[5] + ds[6] + 3 * ds[7] + ds[8] + 3 * ds[9] + ds[10] + 3 * ds[11] + ean13_check(ds)) % 10 == 0,
{
    let t = ds.take(12);
    assert(t.take(0) =~= Seq::<u8>::empty());
    assert(t.take(12) =~= t);
    assert(t.take(1).drop_last() =~= t.take(0));
    assert(t.take(1).last() == ds[0]);
    assert(ean13_sum(t.take(1)) == ean13_sum(t.take(0)) + 1 * ds[0]);
    assert(t.take(2).drop_last() =~= t.take(1));
    assert(t.take(2).last() == ds[1]);
    assert(ean13_sum(t.take(2)) == ean13_sum(t.take(1)) + 3 * ds[1]);
    assert(t.take(3).drop_last() =~= t.take(2));
    assert(t.take(3).last() == ds[2]);
    assert(ean13_sum(t.take(3)) == ean13_sum(t.take(2)) + 1 * ds[2]);
    assert(t.take(4).drop_last() =~= t.take(3));
    assert(t.take(4).last() == ds[3]);
    assert(ean13_sum(t.take(4)) == ean13_sum(t.take(3)) + 3 * ds[3]);
    assert(t.take(5).drop_last() =~= t.take(4));
    assert(t.take(5).last() == ds[4]);
    assert(ean13_sum(t.take(5)) == ean13_sum(t.take(4)) + 1 * ds[4]);
    assert(t.take(6).drop_last() =~= t.take(5));
    assert(t.take(6).last() == ds[5]);
    assert(ean13_sum(t.take(6)) == ean13_sum(t.take(5)) + 3 * ds[5]);
    assert(t.take(7).drop_last() =~= t.take(6));
    assert(t.take(7).last() == ds[6]);
    assert(ean13_sum(t.take(7)) == ean13_sum(t.take(6)) + 1 * ds[6]);
    assert(t.take(8).drop_last() =~= t.take(7));
    assert(t.take(8).last() == ds[7]);
    assert(ean13_sum(t.take(8)) == ean13_sum(t.take(7)) + 3 * ds[7]);
    assert(t.take(9).drop_last() =~= t.take(8));
    assert(t.take(9).last() == ds[8]);
    assert(ean13_sum(t.take(9)) == ean13_sum(t.take(8)) + 1 * ds[8]);
    assert(t.take(10).drop_last() =~= t.take(9));
    assert(t.take(10).last() == ds[9]);
    assert(ean13_sum(t.take(10)) == ean13_sum(t.take(9)) + 3 * ds[9]);
    assert(t.take(11).drop_last() =~= t.take(10));
    assert(t.take(11).last() == ds[10]);
    assert(ean13_sum(t.take(11)) == ean13_sum(t.take(10)) + 1 * ds[10]);
    assert(t.take(12).drop_last() =~= t.take(11));
    assert(t.take(12).last() == ds[11]);
    assert(ean13_sum(t.take(12)) == ean13_sum(t.take(11)) + 3 * ds[11]);
    assert(ean13_sum(Seq::<u8>::empty()) == 0);
    assert(ean13_sum(t) == ds[0] + 3 * ds[1] + ds[2] + 3 * ds[3] + ds[4] + 3 * ds[5] + ds[6] + 3 * ds[7] + ds[8] + 3 * ds[9] + ds[10] + 3 * ds[11]);
    lemma_check_complement(ean13_sum(t));
}

/// A check digit complements a sum to a multiple of ten.
pub proof fn lemma_check_complement(s: int)
    ensures
        ((10 - s % 10) % 10 + s) % 10 == 0,
        ((10 - s % 10) % 10 + s) == (((10 - s % 10) % 10 + s) / 10) * 10,
{
    let r = s % 10;
    vstd::arithmetic::div_mod::lemma_fundamental_div_mod(s, 10);
    let c = (10 - r) % 10;
    if r == 0 {
        assert(c == 0);
    } else {
        assert(c == 10 - r);
    }
    vstd::arithmetic::div_mod::lemma_fundamental_div_mod(c + s, 10);
}

/// The check digit completes the weighted sum of the thirteen digits to a
/// multiple of ten.
pub proof fn lemma_ean13_check_completes(ds: Seq<u8>)
    requires
        ds.len() >= 12,
    ensures
        ean13_sum(ds.take(12).push(ean13_check(ds) as u8)) % 10 == 0,
{
    let c = ean13_check(ds);
    let t = ds.take(12).push(c as u8);
    assert(t.drop_last() =~= ds.take(12));
    assert(0 <= c < 10);
    assert(ean13_sum(t) == ean13_sum(ds.take(12)) + c);
}

} // verus!
