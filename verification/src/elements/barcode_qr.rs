use vstd::prelude::*;
use super::label_position::LabelPosition;
use super::reverse_print::ReversePrint;
use vstd::string::StringSliceAdditionalSpecFns;
use vstd::utf8::{decode_utf8, is_char_boundary, valid_utf8};

verus! {

/// QR error correction level.
#[derive(Clone, Copy, Debug, PartialEq, Eq, Structural)]
pub enum QrErrorCorrectionLevel {
    H,
    Q,
    M,
    L,
}

/// QR character mode.
#[derive(Clone, Copy, Debug, PartialEq, Eq, Structural)]
pub enum QrCharacterMode {
    Automatic,
    Binary,
    Numeric,
    Alphanumeric,
    Kanji,
}

/// QR settings from `^BQ`.
#[derive(Clone, Copy, Debug, PartialEq, Eq, Structural)]
pub struct BarcodeQr {
    pub magnification: i32,
}

/// A QR code with its field data (which carries the level and mode in front).
#[derive(Debug)]
pub struct BarcodeQrWithData {
    pub reverse_print: ReversePrint,
    pub barcode: BarcodeQr,
    pub height: i32,
    pub position: LabelPosition,
    pub data: String,
}

/// The error correction level a format letter selects (`H` for anything unknown).
pub open spec fn qr_level_of(b: u8) -> QrErrorCorrectionLevel {
    if b == 81 {
        QrErrorCorrectionLevel::Q
    } else if b == 77 {
        QrErrorCorrectionLevel::M
    } else if b == 76 {
        QrErrorCorrectionLevel::L
    } else {
        QrErrorCorrectionLevel::H
    }
}

/// The character mode a mode letter selects (`B`, `N`, `A`, `K`; else automatic).
pub open spec fn qr_mode_of(b: u8) -> QrCharacterMode {
    if b == 66 {
        QrCharacterMode::Binary
    } else if b == 78 {
        QrCharacterMode::Numeric
    } else if b == 65 {
        QrCharacterMode::Alphanumeric
    } else if b == 75 {
        QrCharacterMode::Kanji
    } else {
        QrCharacterMode::Automatic
    }
}

/// Where the data starts, and the mode: after the three-byte header, and
/// after a mode letter when the second byte is `M`.
pub open spec fn qr_data_start(b: Seq<u8>) -> (int, QrCharacterMode) {
    if b[1] == 77 && b.len() > 3 {
        (4, qr_mode_of(b[3]))
    } else {
        (3, QrCharacterMode::Automatic)
    }
}

/// An ASCII digit byte.
pub open spec fn is_digit_byte(b: u8) -> bool {
    48 <= b <= 57
}

/// The value of digit bytes, most significant first.
pub open spec fn byte_digits_value(d: Seq<u8>) -> int
    decreases d.len(),
{
    if d.len() == 0 {
        0
    } else {
        10 * byte_digits_value(d.drop_last()) + (d.last() - 48)
    }
}

/// The digits of a count: the bytes after an optional `+`.
pub open spec fn count_digits_part(d: Seq<u8>) -> Seq<u8> {
    if d.len() > 0 && d[0] == 43 {
        d.drop_first()
    } else {
        d
    }
}

/// `str::parse::<usize>` on four bytes: an optional `+`, then digits only.
pub open spec fn count_of(d: Seq<u8>) -> Option<int> {
    let digits = count_digits_part(d);
    if digits.len() > 0 && forall|i: int| 0 <= i < digits.len() ==> is_digit_byte(#[trigger] digits[i]) {
        Some(byte_digits_value(digits))
    } else {
        None
    }
}

/// The QR field data split into the text to encode, the level and the mode;
/// in binary mode four digits give the byte count of the text.
pub open spec fn qr_input(b: Seq<u8>) -> Result<(Seq<u8>, QrErrorCorrectionLevel, QrCharacterMode), Seq<char>> {
    if b.len() < 4 {
        Err("invalid qr barcode data"@)
    } else {
        let (start, mode) = qr_data_start(b);
        let level = qr_level_of(b[0]);
        let r = b.subrange(start, b.len() as int);
        if mode != QrCharacterMode::Binary {
            Ok((r, level, mode))
        } else if r.len() < 5 {
            Err("invalid qr barcode byte mode data"@)
        } else {
            match count_of(r.take(4)) {
                None => Err("invalid qr barcode byte mode data length"@),
                Some(n) => {
                    let d = r.subrange(4, r.len() as int);
                    Ok((d.take(if n < d.len() { n } else { d.len() as int }), level, mode))
                },
            }
        }
    }
}

/// The byte offsets at which `get_input_data` cuts the data fall between
/// characters.
pub open spec fn qr_cuts_ok(b: Seq<u8>) -> bool {
    b.len() >= 4 ==> {
        let (start, mode) = qr_data_start(b);
        let r = b.subrange(start, b.len() as int);
        &&& is_char_boundary(b, 3)
        &&& is_char_boundary(b, start)
        &&& (mode == QrCharacterMode::Binary && r.len() >= 5) ==> {
            &&& is_char_boundary(b, start + 4)
            &&& (count_of(r.take(4)) matches Some(n) ==> {
                let d = r.subrange(4, r.len() as int);
                is_char_boundary(b, start + 4 + if n < d.len() { n } else { d.len() as int })
            })
        }
    }
}

fn qr_level_byte(b: u8) -> (l: QrErrorCorrectionLevel)
    ensures
        l == qr_level_of(b),
{
    if b == 81 {
        QrErrorCorrectionLevel::Q
    } else if b == 77 {
        QrErrorCorrectionLevel::M
    } else if b == 76 {
        QrErrorCorrectionLevel::L
    } else {
        QrErrorCorrectionLevel::H
    }
}

fn qr_mode_byte(b: u8) -> (m: QrCharacterMode)
    ensures
        m == qr_mode_of(b),
{
    if b == 66 {
        QrCharacterMode::Binary
    } else if b == 78 {
        QrCharacterMode::Numeric
    } else if b == 65 {
        QrCharacterMode::Alphanumeric
    } else if b == 75 {
        QrCharacterMode::Kanji
    } else {
        QrCharacterMode::Automatic
    }
}

fn count_of_bytes(d: &[u8]) -> (r: Option<usize>)
    requires
        d@.len() == 4,
    ensures
        match r {
            Some(n) => count_of(d@) == Some(n as int),
            None => count_of(d@) is None,
        },
{
    let start: usize = if d[0] == 43 {
        1
    } else {
        0
    };
    let ghost digits = count_digits_part(d@);
    assert(digits =~= d@.subrange(start as int, 4));
    if start == 4 {
        return None;
    }
    let mut v: usize = 0;
    let mut i: usize = start;
    while i < 4
        invariant
            start <= i <= 4,
            start < 4,
            d@.len() == 4,
            digits == d@.subrange(start as int, 4),
            digits == count_digits_part(d@),
            forall|k: int| start <= k < i ==> is_digit_byte(#[trigger] d@[k]),
            v == byte_digits_value(d@.subrange(start as int, i as int)),
            v < 10000,
            v <= byte_digits_value(d@.subrange(start as int, i as int)),
        decreases 4 - i,
    {
        if !(48 <= d[i] && d[i] <= 57) {
            proof {
                let k = i - start;
                assert(digits[k] == d@[i as int]);
                assert(!is_digit_byte(digits[k]));
                assert(!(forall|j: int| 0 <= j < digits.len() ==> is_digit_byte(#[trigger] digits[j])));
                assert(count_of(d@) is None);
            }
            return None;
        }
        proof {
            assert(d@.subrange(start as int, i + 1).drop_last() =~= d@.subrange(start as int, i as int));
            assert(v * 10 + 9 < 100000);
        }
        v = v * 10 + (d[i] - 48) as usize;
        proof {
            assert(v == byte_digits_value(d@.subrange(start as int, i + 1)));
            assert(v < 10000) by {
                assert(i + 1 - start <= 4);
                lemma_digits_bound(d@.subrange(start as int, i + 1));
            }
        }
        i += 1;
    }
    proof {
        assert forall|k: int| 0 <= k < digits.len() implies is_digit_byte(#[trigger] digits[k]) by {
            assert(digits[k] == d@[start + k]);
        }
    }
    Some(v)
}

proof fn lemma_digits_bound(d: Seq<u8>)
    requires
        d.len() <= 4,
        forall|k: int| 0 <= k < d.len() ==> 48 <= #[trigger] d[k] <= 57,
    ensures
        0 <= byte_digits_value(d) < 10000,
    decreases d.len(),
{
    lemma_digits_bound_len(d);
    reveal_with_fuel(pow10, 5);
}

proof fn lemma_digits_bound_len(d: Seq<u8>)
    requires
        forall|k: int| 0 <= k < d.len() ==> 48 <= #[trigger] d[k] <= 57,
    ensures
        0 <= byte_digits_value(d) < pow10(d.len()),
    decreases d.len(),
{
    if d.len() > 0 {
        lemma_digits_bound_len(d.drop_last());
        assert(d.last() == d[d.len() - 1]);
    }
}

/// Ten to the power `n`.
pub open spec fn pow10(n: nat) -> int
    decreases n,
{
    if n == 0 {
        1
    } else {
        10 * pow10((n - 1) as nat)
    }
}

/// The bytes `b[a..c]`.
fn byte_range(b: &[u8], a: usize, c: usize) -> (r: Vec<u8>)
    requires
        a <= c <= b@.len(),
    ensures
        r@ == b@.subrange(a as int, c as int),
{
    let mut r: Vec<u8> = Vec::new();
    let mut i = a;
    while i < c
        invariant
            a <= i <= c <= b@.len(),
            r@ == b@.subrange(a as int, i as int),
        decreases c - i,
    {
        r.push(b[i]);
        proof {
            assert(r@ =~= b@.subrange(a as int, i + 1));
        }
        i += 1;
    }
    r
}

/// The valid UTF-8 piece `b[a..c]` of valid UTF-8 text cut between characters.
proof fn lemma_piece_valid(b: Seq<u8>, a: int, c: int)
    requires
        valid_utf8(b),
        0 <= a <= c <= b.len(),
        is_char_boundary(b, a),
        is_char_boundary(b, c),
    ensures
        valid_utf8(b.subrange(a, c)),
        is_char_boundary(b.subrange(0, c), a),
{
    vstd::utf8::valid_utf8_split(b, c);
    let pre = b.subrange(0, c);
    if a < c {
        vstd::utf8::is_char_boundary_iff_not_is_continuation_byte(b, a);
        vstd::utf8::is_char_boundary_iff_not_is_continuation_byte(pre, a);
        assert(pre[a] == b[a]);
    } else {
        vstd::utf8::is_char_boundary_start_end_of_seq(pre);
    }
    vstd::utf8::valid_utf8_split(pre, a);
    assert(pre.subrange(a, c) =~= b.subrange(a, c));
}

impl BarcodeQrWithData {
    /// Whether the byte offsets at which [`Self::get_input_data`] cuts the data
    /// fall between characters.
    pub fn input_cuts_ok(&self) -> (ok: bool)
        ensures
            ok == qr_cuts_ok(vstd::utf8::encode_utf8(self.data@)),
    {
        let s = self.data.as_str();
        let b = s.as_bytes();
        let ghost bs = b@;
        if b.len() < 4 {
            return true;
        }
        let mut start: usize = 3;
        let mut mode = QrCharacterMode::Automatic;
        if b[1] == 77 && b.len() > 3 {
            mode = qr_mode_byte(b[3]);
            start = 4;
        }
        assert((start as int, mode) == qr_data_start(bs));
        if !s.is_char_boundary(3) || !s.is_char_boundary(start) {
            return false;
        }
        let n = b.len();
        if mode != QrCharacterMode::Binary || n - start < 5 {
            return true;
        }
        if !s.is_char_boundary(start + 4) {
            return false;
        }
        let ghost r = bs.subrange(start as int, n as int);
        let head = byte_range(b, start, start + 4);
        assert(head@ =~= r.take(4));
        match count_of_bytes(head.as_slice()) {
            None => true,
            Some(count) => {
                let avail = n - (start + 4);
                let take = if count < avail {
                    count
                } else {
                    avail
                };
                proof {
                    let d = r.subrange(4, r.len() as int);
                    assert(d.len() == avail);
                }
                s.is_char_boundary(start + 4 + take)
            },
        }
    }

    /// The text to encode, the error correction level and the character mode
    /// from the QR field data (`QA,text`, `HM,Btext`, ...).
    pub fn get_input_data(&self) -> (r: Result<(String, QrErrorCorrectionLevel, QrCharacterMode), String>)
        requires
            qr_cuts_ok(vstd::utf8::encode_utf8(self.data@)),
        ensures
            match qr_input(vstd::utf8::encode_utf8(self.data@)) {
                Ok((t, l, m)) => r matches Ok((s, l2, m2)) && valid_utf8(t) && s@ == decode_utf8(t)
                    && l2 == l && m2 == m,
                Err(e) => r matches Err(e2) && e2@ == e,
            },
    {
        let b = self.data.as_str().as_bytes();
        let ghost bs = b@;
        proof {
            vstd::utf8::encode_utf8_valid_utf8(self.data@);
        }
        if b.len() < 4 {
            return Err("invalid qr barcode data".to_owned());
        }
        let level = qr_level_byte(b[0]);
        let mut start: usize = 3;
        let mut mode = QrCharacterMode::Automatic;
        if b[1] == 77 && b.len() > 3 {
            mode = qr_mode_byte(b[3]);
            start = 4;
        }
        assert((start as int, mode) == qr_data_start(bs));
        let n = b.len();
        let ghost r = bs.subrange(start as int, n as int);
        let (lo, hi) = if mode != QrCharacterMode::Binary {
            (start, n)
        } else {
            if n - start < 5 {
                return Err("invalid qr barcode byte mode data".to_owned());
            }
            let head = byte_range(b, start, start + 4);
            assert(head@ =~= r.take(4));
            match count_of_bytes(head.as_slice()) {
                None => {
                    return Err("invalid qr barcode byte mode data length".to_owned());
                },
                Some(count) => {
                    let avail = n - (start + 4);
                    let take = if count < avail {
                        count
                    } else {
                        avail
                    };
                    proof {
                        let d = r.subrange(4, r.len() as int);
                        assert(d.len() == avail);
                    }
                    (start + 4, start + 4 + take)
                },
            }
        };
        let piece = byte_range(b, lo, hi);
        proof {
            vstd::utf8::is_char_boundary_start_end_of_seq(bs);
            lemma_piece_valid(bs, lo as int, hi as int);
            match qr_input(bs) {
                Ok((t, l, m)) => {
                    assert(t =~= piece@);
                },
                Err(_) => {},
            }
        }
        match crate::hex::utf8_string(piece) {
            Some(s) => Ok((s, level, mode)),
            None => Err("invalid qr barcode data".to_owned()),
        }
    }
}

} // verus!
