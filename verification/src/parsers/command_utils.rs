//! Readers for the parameters of ZPL commands.
use vstd::prelude::*;
use vstd::string::StringSliceAdditionalSpecFns;
use crate::elements::barcode_128::BarcodeMode;
use crate::elements::field_alignment::FieldAlignment;
use crate::elements::field_orientation::FieldOrientation;
use crate::elements::text_alignment::TextAlignment;
use crate::parsers::binary64::{
    binary_parts, classify, decimal_fraction, floor_of, fraction_at_least_half, has_fraction_bits,
    lemma_binary64_facts, lemma_nearest_large, lemma_thousandths_below, nearest_binary64,
    overflows, thousandths_of, Magnitude,
};
use crate::parsers::float_text::{float_parts, float_text, INFINITE, NOT_A_NUMBER};
use crate::text::all_digits;
use crate::text::{
    chars_of, max_int, min_int, parse_i32_chars, spec_parse_i32, split_chars, split_on,
    str_suffix, string_of, trim, trim_chars, views,
};

verus! {

/// The text of `command` after the bytes of `prefix`.
pub open spec fn command_rest(command: &str, prefix: &str) -> Seq<char> {
    vstd::utf8::decode_utf8(
        command.spec_bytes().subrange(prefix.len() as int, command.spec_bytes().len() as int),
    )
}

/// The parameters of `command`: the text after `prefix`, split at commas.
pub fn split_command(command: &str, prefix: &str) -> (r: Vec<String>)
    requires
        vstd::utf8::is_char_boundary(command.spec_bytes(), prefix.len() as int),
    ensures
        r@.map_values(|p: String| p@) == split_on(command_rest(command, prefix), ','),
{
    let rest = str_suffix(command, prefix.len());
    let v = chars_of(rest);
    let parts = split_chars(&v, ',');
    let mut r: Vec<String> = Vec::new();
    let mut i: usize = 0;
    while i < parts.len()
        invariant
            i <= parts.len(),
            r@.map_values(|p: String| p@) == views(parts@).take(i as int),
        decreases parts.len() - i,
    {
        let s = string_of(&parts[i]);
        let ghost old_r = r@;
        r.push(s);
        assert(r@.map_values(|p: String| p@) =~= old_r.map_values(|p: String| p@).push(s@));
        assert(views(parts@).take(i + 1) =~= views(parts@).take(i as int).push(parts@[i as int]@));
        i += 1;
    }
    assert(views(parts@).take(parts.len() as int) == views(parts@));
    r
}

/// The text of `command` after the bytes of `prefix`.
pub fn command_text<'a>(command: &'a str, prefix: &str) -> (r: &'a str)
    requires
        vstd::utf8::is_char_boundary(command.spec_bytes(), prefix.len() as int),
    ensures
        r@ == command_rest(command, prefix),
{
    str_suffix(command, prefix.len())
}

/// The orientation a parameter letter selects; anything unknown is normal.
pub open spec fn orientation_of(c: char) -> FieldOrientation {
    if c == 'R' {
        FieldOrientation::Rotated90
    } else if c == 'I' {
        FieldOrientation::Rotated180
    } else if c == 'B' {
        FieldOrientation::Rotated270
    } else {
        FieldOrientation::Normal
    }
}

/// The orientation a parameter letter selects.
pub fn orientation_of_char(c: char) -> (r: FieldOrientation)
    ensures
        r == orientation_of(c),
{
    if c == 'R' {
        FieldOrientation::Rotated90
    } else if c == 'I' {
        FieldOrientation::Rotated180
    } else if c == 'B' {
        FieldOrientation::Rotated270
    } else {
        FieldOrientation::Normal
    }
}

/// The orientation a parameter byte selects (`N`, `R`, `I`, `B`).
pub fn to_field_orientation(b: u8) -> (r: FieldOrientation)
    ensures
        r == orientation_of(b as char),
{
    orientation_of_char(b as char)
}

/// The justification a parameter selects: `0` left, `1` right, `2` auto.
pub open spec fn alignment_of(s: Seq<char>) -> Option<FieldAlignment> {
    match spec_parse_i32(trim(s)) {
        Some(v) => if v == 0 {
            Some(FieldAlignment::Left)
        } else if v == 1 {
            Some(FieldAlignment::Right)
        } else if v == 2 {
            Some(FieldAlignment::Auto)
        } else {
            None
        },
        None => None,
    }
}

/// The justification a parameter selects.
pub fn alignment_of_chars(s: &[char]) -> (r: Option<FieldAlignment>)
    ensures
        r == alignment_of(s@),
{
    let t = trim_chars(s);
    match parse_i32_chars(&t) {
        Some(0) => Some(FieldAlignment::Left),
        Some(1) => Some(FieldAlignment::Right),
        Some(2) => Some(FieldAlignment::Auto),
        _ => None,
    }
}

/// The justification a parameter selects.
pub fn to_field_alignment(s: &str) -> (r: Option<FieldAlignment>)
    ensures
        r == alignment_of(s@),
{
    let v = chars_of(s);
    alignment_of_chars(&v)
}

/// The block alignment a parameter letter selects; anything unknown is left.
pub open spec fn text_alignment_of(c: char) -> TextAlignment {
    if c == 'R' {
        TextAlignment::Right
    } else if c == 'J' {
        TextAlignment::Justified
    } else if c == 'C' {
        TextAlignment::Center
    } else {
        TextAlignment::Left
    }
}

/// The block alignment a parameter letter selects.
pub fn text_alignment_of_char(c: char) -> (r: TextAlignment)
    ensures
        r == text_alignment_of(c),
{
    if c == 'R' {
        TextAlignment::Right
    } else if c == 'J' {
        TextAlignment::Justified
    } else if c == 'C' {
        TextAlignment::Center
    } else {
        TextAlignment::Left
    }
}

/// The block alignment a parameter byte selects (`L`, `R`, `J`, `C`).
pub fn to_text_alignment(b: u8) -> (r: TextAlignment)
    ensures
        r == text_alignment_of(b as char),
{
    text_alignment_of_char(b as char)
}

/// The Code 128 mode a parameter letter selects; anything unknown is no mode.
pub open spec fn barcode_mode_of(c: char) -> BarcodeMode {
    if c == 'U' {
        BarcodeMode::Ucc
    } else if c == 'A' {
        BarcodeMode::Automatic
    } else if c == 'D' {
        BarcodeMode::Ean
    } else {
        BarcodeMode::No
    }
}

/// The Code 128 mode a parameter letter selects.
pub fn barcode_mode_of_char(c: char) -> (r: BarcodeMode)
    ensures
        r == barcode_mode_of(c),
{
    if c == 'U' {
        BarcodeMode::Ucc
    } else if c == 'A' {
        BarcodeMode::Automatic
    } else if c == 'D' {
        BarcodeMode::Ean
    } else {
        BarcodeMode::No
    }
}

/// The Code 128 mode a parameter byte selects (`N`, `U`, `A`, `D`).
pub fn to_barcode_mode(b: u8) -> (r: BarcodeMode)
    ensures
        r == barcode_mode_of(b as char),
{
    barcode_mode_of_char(b as char)
}

/// A yes/no parameter: only `Y` is yes.
pub fn to_bool_field(b: u8) -> (r: bool)
    ensures
        r == (b == 'Y' as u8),
{
    b == 'Y' as u8
}

/// The binary64 number that the digits `d` with the point at `p` parse to
/// (see [`nearest_binary64`]).
pub open spec fn parsed_binary64(d: Seq<char>, p: int) -> (int, int) {
    let (a, b) = decimal_fraction(d, p);
    nearest_binary64(a, b)
}

/// A position parameter: the trimmed text read as `str::parse::<f64>` reads
/// it (floating-point text, see [`float_text`], rounded to the nearest
/// binary64 number), then its absolute value rounded to the nearest integer
/// with halves away from zero, brought into `i32` as a float-to-integer cast
/// does: saturating at `i32::MAX`, an infinity giving `i32::MAX` and
/// not-a-number giving zero.
pub open spec fn positive_int_of(s: Seq<char>) -> Option<i32> {
    match float_text(trim(s)) {
        None => None,
        Some((kind, _neg, d, p)) => Some(
            if kind == NOT_A_NUMBER {
                0i32
            } else if kind == INFINITE {
                i32::MAX
            } else {
                let (m, q) = parsed_binary64(d, p);
                if overflows(m, q) {
                    i32::MAX
                } else {
                    min_int(
                        floor_of(m, q) + if fraction_at_least_half(m, q) {
                            1int
                        } else {
                            0int
                        },
                        i32::MAX as int,
                    ) as i32
                }
            },
        ),
    }
}

/// The ceiling of the trimmed text read as `str::parse::<f64>` reads it (see
/// [`positive_int_of`]), brought into `i32` as a float-to-integer cast does:
/// saturating at either end, an infinity giving the end of its sign and
/// not-a-number giving zero.
pub open spec fn ceil_int_of(s: Seq<char>) -> Option<i32> {
    match float_text(trim(s)) {
        None => None,
        Some((kind, neg, d, p)) => Some(
            if kind == NOT_A_NUMBER {
                0i32
            } else if kind == INFINITE {
                if neg {
                    i32::MIN
                } else {
                    i32::MAX
                }
            } else {
                let (m, q) = parsed_binary64(d, p);
                if neg {
                    if overflows(m, q) {
                        i32::MIN
                    } else {
                        max_int(-floor_of(m, q), i32::MIN as int) as i32
                    }
                } else if overflows(m, q) {
                    i32::MAX
                } else {
                    min_int(
                        floor_of(m, q) + if has_fraction_bits(m, q) {
                            1int
                        } else {
                            0int
                        },
                        i32::MAX as int,
                    ) as i32
                }
            },
        ),
    }
}

/// A bar width ratio in thousandths: the trimmed text read as
/// `str::parse::<f64>` reads it (see [`positive_int_of`]), clamped to the
/// range two to three, then the integer part of a thousand times it.
/// Infinities clamp to their end of the range; not-a-number stays unclamped
/// and counts as zero.
pub open spec fn ratio_of(s: Seq<char>) -> Option<i32> {
    match float_text(trim(s)) {
        None => None,
        Some((kind, neg, d, p)) => Some(
            if kind == NOT_A_NUMBER {
                0i32
            } else if kind == INFINITE {
                if neg {
                    2000i32
                } else {
                    3000i32
                }
            } else {
                let (m, q) = parsed_binary64(d, p);
                if neg {
                    2000i32
                } else if overflows(m, q) || floor_of(m, q) >= 3 {
                    3000i32
                } else if floor_of(m, q) < 2 {
                    2000i32
                } else {
                    thousandths_of(m, q) as i32
                }
            },
        ),
    }
}

/// The binary64 number that float text parses to, where [`float_parts`]
/// gave its digits `d` and a place `p` of the point.
fn finite_value(d: &Vec<char>, p: i128, Ghost(s): Ghost<Seq<char>>) -> (r: Magnitude)
    requires
        float_text(s) matches Some((k2, n2, d2, p2)) && d@ == d2 && all_digits(d2) && (p == p2 || (
        p <= -1000 && p2 <= -1000) || (p >= d2.len() + 10 && p2 >= d2.len() + 10)),
    ensures
        ({
            let (k2, n2, d2, p2) = float_text(s)->0;
            let (m, q) = parsed_binary64(d2, p2);
            match r {
                Magnitude::Large => overflows(m, q) || floor_of(m, q) >= 0x1_0000_0000,
                Magnitude::Binary(mm, k) => k <= 1074 && mm <= 0x20_0000_0000_0000 && m == mm && q
                    == -(k as int),
            }
        }),
{
    let ghost t = float_text(s)->0;
    let ghost p2 = t.3;
    let r = classify(d.as_slice(), p, Ghost(p2));
    proof {
        let (a, b) = decimal_fraction(d@, p2);
        lemma_binary64_facts();
        match r {
            Magnitude::Large => {
                lemma_nearest_large(a, b);
            },
            _ => {},
        }
    }
    r
}

/// A position parameter (`^FO`, `^FT`, `^GB`): see [`positive_int_of`].
pub fn positive_int_of_chars(s: &[char]) -> (r: Option<i32>)
    ensures
        r == positive_int_of(s@),
{
    let t = trim_chars(s);
    match float_parts(&t) {
        None => None,
        Some((kind, _neg, d, p)) => {
            if kind == NOT_A_NUMBER {
                Some(0)
            } else if kind == INFINITE {
                Some(i32::MAX)
            } else {
                match finite_value(&d, p, Ghost(t@)) {
                    Magnitude::Large => Some(i32::MAX),
                    Magnitude::Binary(m, k) => {
                        let (fl, half, _frac, _th) = binary_parts(m, k);
                        let total = fl + if half {
                            1
                        } else {
                            0
                        };
                        Some(
                            if total > 0x7fff_ffff {
                                0x7fff_ffff
                            } else {
                                total as i32
                            },
                        )
                    },
                }
            }
        },
    }
}

/// A position parameter read from text: see [`positive_int_of`].
pub fn to_positive_int(s: &str) -> (r: Option<i32>)
    ensures
        r == positive_int_of(s@),
{
    let v = chars_of(s);
    positive_int_of_chars(&v)
}

/// An integer parameter: the trimmed text read as an `i32`.
pub fn parse_int_chars(s: &[char]) -> (r: Option<i32>)
    ensures
        r == spec_parse_i32(trim(s@)),
{
    let t = trim_chars(s);
    parse_i32_chars(&t)
}

/// An integer parameter read from text.
pub fn parse_int(s: &str) -> (r: Option<i32>)
    ensures
        r == spec_parse_i32(trim(s@)),
{
    let v = chars_of(s);
    parse_int_chars(&v)
}

/// A height parameter: see [`ceil_int_of`].
pub fn ceil_int_of_chars(s: &[char]) -> (r: Option<i32>)
    ensures
        r == ceil_int_of(s@),
{
    let t = trim_chars(s);
    match float_parts(&t) {
        None => None,
        Some((kind, neg, d, p)) => {
            if kind == NOT_A_NUMBER {
                Some(0)
            } else if kind == INFINITE {
                Some(
                    if neg {
                        i32::MIN
                    } else {
                        i32::MAX
                    },
                )
            } else {
                match finite_value(&d, p, Ghost(t@)) {
                    Magnitude::Large => Some(
                        if neg {
                            i32::MIN
                        } else {
                            i32::MAX
                        },
                    ),
                    Magnitude::Binary(m, k) => {
                        let (fl, _half, frac, _th) = binary_parts(m, k);
                        if neg {
                            Some(
                                if fl > 0x8000_0000 {
                                    i32::MIN
                                } else {
                                    (0 - (fl as i64)) as i32
                                },
                            )
                        } else {
                            let total = fl + if frac {
                                1
                            } else {
                                0
                            };
                            Some(
                                if total > 0x7fff_ffff {
                                    0x7fff_ffff
                                } else {
                                    total as i32
                                },
                            )
                        }
                    },
                }
            }
        },
    }
}

/// A height parameter read from text: see [`ceil_int_of`].
pub fn parse_int_ceil(s: &str) -> (r: Option<i32>)
    ensures
        r == ceil_int_of(s@),
{
    let v = chars_of(s);
    ceil_int_of_chars(&v)
}

/// A bar width ratio parameter: see [`ratio_of`].
pub fn ratio_of_chars(s: &[char]) -> (r: Option<i32>)
    ensures
        r == ratio_of(s@),
{
    let t = trim_chars(s);
    match float_parts(&t) {
        None => None,
        Some((kind, neg, d, p)) => {
            if kind == NOT_A_NUMBER {
                Some(0)
            } else if kind == INFINITE {
                Some(
                    if neg {
                        2000
                    } else {
                        3000
                    },
                )
            } else if neg {
                Some(2000)
            } else {
                match finite_value(&d, p, Ghost(t@)) {
                    Magnitude::Large => Some(3000),
                    Magnitude::Binary(m, k) => {
                        let (fl, _half, _frac, th) = binary_parts(m, k);
                        if fl >= 3 {
                            Some(3000)
                        } else if fl < 2 {
                            Some(2000)
                        } else {
                            proof {
                                lemma_thousandths_below(m as int, -(k as int));
                            }
                            Some(th as i32)
                        }
                    },
                }
            }
        },
    }
}

/// A bar width ratio parameter read from text: see [`ratio_of`].
pub fn parse_ratio(s: &str) -> (r: Option<i32>)
    ensures
        r == ratio_of(s@),
{
    let v = chars_of(s);
    ratio_of_chars(&v)
}

} // verus!
