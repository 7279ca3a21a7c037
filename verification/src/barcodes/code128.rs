//! Code 128: symbol values, the check value and the module row.
//!
//! Field data becomes a list of symbol values (a start value, then data,
//! code-set switches and FNC1), a check value is appended, and each value is
//! drawn as three bars and three spaces; the stop pattern closes the row.
use vstd::prelude::*;
use crate::barcodes::bit_matrix::{BitMatrix, at_least_one};
use crate::elements::barcode_128::BarcodeMode;
use crate::text::{is_digit, digit_val, chars_of, push_char, is_digit_char, join_chars, string_of};

verus! {

/// The character that stands for FNC1 in field data.
pub const ESCAPE_FNC_1: char = '\u{00F1}';

pub const CODE_A_START: u8 = 103;
pub const CODE_B_START: u8 = 104;
pub const CODE_C_START: u8 = 105;
pub const STOP: u8 = 106;
pub const CODE_A_SWITCH: u8 = 101;
pub const CODE_B_SWITCH: u8 = 100;
pub const CODE_C_SWITCH: u8 = 99;
pub const FNC1: u8 = 102;

/// The three Code 128 character sets.
#[derive(Clone, Copy, Debug, PartialEq, Eq, Structural)]
pub enum CodeSet {
    A,
    B,
    C,
}

/// The six bar and space widths of symbol value `code` (values past the table read as 0).
pub open spec fn widths_of(code: u8) -> (u8, u8, u8, u8, u8, u8) {
    match code {
        0 => (2, 1, 2, 2, 2, 2),
        1 => (2, 2, 2, 1, 2, 2),
        2 => (2, 2, 2, 2, 2, 1),
        3 => (1, 2, 1, 2, 2, 3),
        4 => (1, 2, 1, 3, 2, 2),
        5 => (1, 3, 1, 2, 2, 2),
        6 => (1, 2, 2, 2, 1, 3),
        7 => (1, 2, 2, 3, 1, 2),
        8 => (1, 3, 2, 2, 1, 2),
        9 => (2, 2, 1, 2, 1, 3),
        10 => (2, 2, 1, 3, 1, 2),
        11 => (2, 3, 1, 2, 1, 2),
        12 => (1, 1, 2, 2, 3, 2),
        13 => (1, 2, 2, 1, 3, 2),
        14 => (1, 2, 2, 2, 3, 1),
        15 => (1, 1, 3, 2, 2, 2),
        16 => (1, 2, 3, 1, 2, 2),
        17 => (1, 2, 3, 2, 2, 1),
        18 => (2, 2, 3, 2, 1, 1),
        19 => (2, 2, 1, 1, 3, 2),
        20 => (2, 2, 1, 2, 3, 1),
        21 => (2, 1, 3, 2, 1, 2),
        22 => (2, 2, 3, 1, 1, 2),
        23 => (3, 1, 2, 1, 3, 1),
        24 => (3, 1, 1, 2, 2, 2),
        25 => (3, 2, 1, 1, 2, 2),
        26 => (3, 2, 1, 2, 2, 1),
        27 => (3, 1, 2, 2, 1, 2),
        28 => (3, 2, 2, 1, 1, 2),
        29 => (3, 2, 2, 2, 1, 1),
        30 => (2, 1, 2, 1, 2, 3),
        31 => (2, 1, 2, 3, 2, 1),
        32 => (2, 3, 2, 1, 2, 1),
        33 => (1, 1, 1, 3, 2, 3),
        34 => (1, 3, 1, 1, 2, 3),
        35 => (1, 3, 1, 3, 2, 1),
        36 => (1, 1, 2, 3, 1, 3),
        37 => (1, 3, 2, 1, 1, 3),
        38 => (1, 3, 2, 3, 1, 1),
        39 => (2, 1, 1, 3, 1, 3),
        40 => (2, 3, 1, 1, 1, 3),
        41 => (2, 3, 1, 3, 1, 1),
        42 => (1, 1, 2, 1, 3, 3),
        43 => (1, 1, 2, 3, 3, 1),
        44 => (1, 3, 2, 1, 3, 1),
        45 => (1, 1, 3, 1, 2, 3),
        46 => (1, 1, 3, 3, 2, 1),
        47 => (1, 3, 3, 1, 2, 1),
        48 => (3, 1, 3, 1, 2, 1),
        49 => (2, 1, 1, 3, 3, 1),
        50 => (2, 3, 1, 1, 3, 1),
        51 => (2, 1, 3, 1, 1, 3),
        52 => (2, 1, 3, 3, 1, 1),
        53 => (2, 1, 3, 1, 3, 1),
        54 => (3, 1, 1, 1, 2, 3),
        55 => (3, 1, 1, 3, 2, 1),
        56 => (3, 3, 1, 1, 2, 1),
        57 => (3, 1, 2, 1, 1, 3),
        58 => (3, 1, 2, 3, 1, 1),
        59 => (3, 3, 2, 1, 1, 1),
        60 => (3, 1, 4, 1, 1, 1),
        61 => (2, 2, 1, 4, 1, 1),
        62 => (4, 3, 1, 1, 1, 1),
        63 => (1, 1, 1, 2, 2, 4),
        64 => (1, 1, 1, 4, 2, 2),
        65 => (1, 2, 1, 1, 2, 4),
        66 => (1, 2, 1, 4, 2, 1),
        67 => (1, 4, 1, 1, 2, 2),
        68 => (1, 4, 1, 2, 2, 1),
        69 => (1, 1, 2, 2, 1, 4),
        70 => (1, 1, 2, 4, 1, 2),
        71 => (1, 2, 2, 1, 1, 4),
        72 => (1, 2, 2, 4, 1, 1),
        73 => (1, 4, 2, 1, 1, 2),
        74 => (1, 4, 2, 2, 1, 1),
        75 => (2, 4, 1, 2, 1, 1),
        76 => (2, 2, 1, 1, 1, 4),
        77 => (4, 1, 3, 1, 1, 1),
        78 => (2, 4, 1, 1, 1, 2),
        79 => (1, 3, 4, 1, 1, 1),
        80 => (1, 1, 1, 2, 4, 2),
        81 => (1, 2, 1, 1, 4, 2),
        82 => (1, 2, 1, 2, 4, 1),
        83 => (1, 1, 4, 2, 1, 2),
        84 => (1, 2, 4, 1, 1, 2),
        85 => (1, 2, 4, 2, 1, 1),
        86 => (4, 1, 1, 2, 1, 2),
        87 => (4, 2, 1, 1, 1, 2),
        88 => (4, 2, 1, 2, 1, 1),
        89 => (2, 1, 2, 1, 4, 1),
        90 => (2, 1, 4, 1, 2, 1),
        91 => (4, 1, 2, 1, 2, 1),
        92 => (1, 1, 1, 1, 4, 3),
        93 => (1, 1, 1, 3, 4, 1),
        94 => (1, 3, 1, 1, 4, 1),
        95 => (1, 1, 4, 1, 1, 3),
        96 => (1, 1, 4, 3, 1, 1),
        97 => (4, 1, 1, 1, 1, 3),
        98 => (4, 1, 1, 3, 1, 1),
        99 => (1, 1, 3, 1, 4, 1),
        100 => (1, 1, 4, 1, 3, 1),
        101 => (3, 1, 1, 1, 4, 1),
        102 => (4, 1, 1, 1, 3, 1),
        103 => (2, 1, 1, 4, 1, 2),
        104 => (2, 1, 1, 2, 1, 4),
        105 => (2, 1, 1, 2, 3, 2),
        106 => (2, 3, 3, 1, 1, 1),
        107 => (2, 1, 1, 1, 3, 2),
        _ => (0, 0, 0, 0, 0, 0),
    }
}

fn code_widths(code: u8) -> (r: (u8, u8, u8, u8, u8, u8))
    ensures
        r == widths_of(code),
{
    match code {
        0 => (2, 1, 2, 2, 2, 2),
        1 => (2, 2, 2, 1, 2, 2),
        2 => (2, 2, 2, 2, 2, 1),
        3 => (1, 2, 1, 2, 2, 3),
        4 => (1, 2, 1, 3, 2, 2),
        5 => (1, 3, 1, 2, 2, 2),
        6 => (1, 2, 2, 2, 1, 3),
        7 => (1, 2, 2, 3, 1, 2),
        8 => (1, 3, 2, 2, 1, 2),
        9 => (2, 2, 1, 2, 1, 3),
        10 => (2, 2, 1, 3, 1, 2),
        11 => (2, 3, 1, 2, 1, 2),
        12 => (1, 1, 2, 2, 3, 2),
        13 => (1, 2, 2, 1, 3, 2),
        14 => (1, 2, 2, 2, 3, 1),
        15 => (1, 1, 3, 2, 2, 2),
        16 => (1, 2, 3, 1, 2, 2),
        17 => (1, 2, 3, 2, 2, 1),
        18 => (2, 2, 3, 2, 1, 1),
        19 => (2, 2, 1, 1, 3, 2),
        20 => (2, 2, 1, 2, 3, 1),
        21 => (2, 1, 3, 2, 1, 2),
        22 => (2, 2, 3, 1, 1, 2),
        23 => (3, 1, 2, 1, 3, 1),
        24 => (3, 1, 1, 2, 2, 2),
        25 => (3, 2, 1, 1, 2, 2),
        26 => (3, 2, 1, 2, 2, 1),
        27 => (3, 1, 2, 2, 1, 2),
        28 => (3, 2, 2, 1, 1, 2),
        29 => (3, 2, 2, 2, 1, 1),
        30 => (2, 1, 2, 1, 2, 3),
        31 => (2, 1, 2, 3, 2, 1),
        32 => (2, 3, 2, 1, 2, 1),
        33 => (1, 1, 1, 3, 2, 3),
        34 => (1, 3, 1, 1, 2, 3),
        35 => (1, 3, 1, 3, 2, 1),
        36 => (1, 1, 2, 3, 1, 3),
        37 => (1, 3, 2, 1, 1, 3),
        38 => (1, 3, 2, 3, 1, 1),
        39 => (2, 1, 1, 3, 1, 3),
        40 => (2, 3, 1, 1, 1, 3),
        41 => (2, 3, 1, 3, 1, 1),
        42 => (1, 1, 2, 1, 3, 3),
        43 => (1, 1, 2, 3, 3, 1),
        44 => (1, 3, 2, 1, 3, 1),
        45 => (1, 1, 3, 1, 2, 3),
        46 => (1, 1, 3, 3, 2, 1),
        47 => (1, 3, 3, 1, 2, 1),
        48 => (3, 1, 3, 1, 2, 1),
        49 => (2, 1, 1, 3, 3, 1),
        50 => (2, 3, 1, 1, 3, 1),
        51 => (2, 1, 3, 1, 1, 3),
        52 => (2, 1, 3, 3, 1, 1),
        53 => (2, 1, 3, 1, 3, 1),
        54 => (3, 1, 1, 1, 2, 3),
        55 => (3, 1, 1, 3, 2, 1),
        56 => (3, 3, 1, 1, 2, 1),
        57 => (3, 1, 2, 1, 1, 3),
        58 => (3, 1, 2, 3, 1, 1),
        59 => (3, 3, 2, 1, 1, 1),
        60 => (3, 1, 4, 1, 1, 1),
        61 => (2, 2, 1, 4, 1, 1),
        62 => (4, 3, 1, 1, 1, 1),
        63 => (1, 1, 1, 2, 2, 4),
        64 => (1, 1, 1, 4, 2, 2),
        65 => (1, 2, 1, 1, 2, 4),
        66 => (1, 2, 1, 4, 2, 1),
        67 => (1, 4, 1, 1, 2, 2),
        68 => (1, 4, 1, 2, 2, 1),
        69 => (1, 1, 2, 2, 1, 4),
        70 => (1, 1, 2, 4, 1, 2),
        71 => (1, 2, 2, 1, 1, 4),
        72 => (1, 2, 2, 4, 1, 1),
        73 => (1, 4, 2, 1, 1, 2),
        74 => (1, 4, 2, 2, 1, 1),
        75 => (2, 4, 1, 2, 1, 1),
        76 => (2, 2, 1, 1, 1, 4),
        77 => (4, 1, 3, 1, 1, 1),
        78 => (2, 4, 1, 1, 1, 2),
        79 => (1, 3, 4, 1, 1, 1),
        80 => (1, 1, 1, 2, 4, 2),
        81 => (1, 2, 1, 1, 4, 2),
        82 => (1, 2, 1, 2, 4, 1),
        83 => (1, 1, 4, 2, 1, 2),
        84 => (1, 2, 4, 1, 1, 2),
        85 => (1, 2, 4, 2, 1, 1),
        86 => (4, 1, 1, 2, 1, 2),
        87 => (4, 2, 1, 1, 1, 2),
        88 => (4, 2, 1, 2, 1, 1),
        89 => (2, 1, 2, 1, 4, 1),
        90 => (2, 1, 4, 1, 2, 1),
        91 => (4, 1, 2, 1, 2, 1),
        92 => (1, 1, 1, 1, 4, 3),
        93 => (1, 1, 1, 3, 4, 1),
        94 => (1, 3, 1, 1, 4, 1),
        95 => (1, 1, 4, 1, 1, 3),
        96 => (1, 1, 4, 3, 1, 1),
        97 => (4, 1, 1, 1, 1, 3),
        98 => (4, 1, 1, 3, 1, 1),
        99 => (1, 1, 3, 1, 4, 1),
        100 => (1, 1, 4, 1, 3, 1),
        101 => (3, 1, 1, 1, 4, 1),
        102 => (4, 1, 1, 1, 3, 1),
        103 => (2, 1, 1, 4, 1, 2),
        104 => (2, 1, 1, 2, 1, 4),
        105 => (2, 1, 1, 2, 3, 2),
        106 => (2, 3, 3, 1, 1, 1),
        107 => (2, 1, 1, 1, 3, 2),
        _ => (0, 0, 0, 0, 0, 0),
    }
}

/// `w` modules, all bars or all spaces.
pub open spec fn run(w: int, bar: bool) -> Seq<bool> {
    Seq::new(w as nat, |k: int| bar)
}

/// The eleven modules of one symbol value.
pub open spec fn symbol_modules(code: u8) -> Seq<bool> {
    let (a, b, c, d, e, f) = widths_of(code);
    run(a as int, true) + run(b as int, false) + run(c as int, true) + run(d as int, false)
        + run(e as int, true) + run(f as int, false)
}

/// The thirteen modules of the stop pattern.
pub open spec fn stop_modules() -> Seq<bool> {
    run(2, true) + run(3, false) + run(3, true) + run(1, false) + run(1, true) + run(1, false)
        + run(2, true)
}

/// The modules of a list of symbol values, in order.
pub open spec fn data_modules(codes: Seq<u8>) -> Seq<bool>
    decreases codes.len(),
{
    if codes.len() == 0 {
        seq![]
    } else {
        data_modules(codes.drop_last()) + symbol_modules(codes.last())
    }
}

/// The weighted sum behind the check value: the start value counts once and
/// the value at position `k` after it counts `k` times.
pub open spec fn weighted_sum(codes: Seq<u8>) -> int
    decreases codes.len(),
{
    if codes.len() == 0 {
        0
    } else if codes.len() == 1 {
        codes[0] as int
    } else {
        weighted_sum(codes.drop_last()) + (codes.len() - 1) * codes.last()
    }
}

/// The check value of a list of symbol values that starts with a start value.
pub open spec fn check_value(codes: Seq<u8>) -> int {
    weighted_sum(codes) % 103
}

/// The whole module row for a list of symbol values: the values, the check
/// value, then the stop pattern.
pub open spec fn symbol_row(codes: Seq<u8>) -> Seq<bool> {
    data_modules(codes.push(check_value(codes) as u8)) + stop_modules()
}

/// The low byte of a character, as a cast to `u8` keeps it.
pub open spec fn low_byte(c: char) -> int {
    (c as int) % 256
}

/// The Code B value of a character (0 for bytes outside 32..=127).
pub open spec fn b_value(c: char) -> u8 {
    let b = low_byte(c);
    if 32 <= b <= 127 {
        (b - 32) as u8
    } else {
        0
    }
}

/// The Code A value of a character (control bytes map to 64..=95).
pub open spec fn a_value(c: char) -> u8 {
    let b = low_byte(c);
    if 32 <= b <= 95 {
        (b - 32) as u8
    } else if b < 32 {
        (b + 64) as u8
    } else {
        0
    }
}

/// The Code C value of two digits.
pub open spec fn pair_value(c1: char, c2: char) -> u8 {
    (digit_val(c1) * 10 + digit_val(c2)) as u8
}

/// The start value of a character set.
pub open spec fn start_value(set: CodeSet) -> u8 {
    match set {
        CodeSet::A => CODE_A_START,
        CodeSet::B => CODE_B_START,
        CodeSet::C => CODE_C_START,
    }
}

/// How many ASCII digits follow one another from position `i`.
pub open spec fn digit_run(s: Seq<char>, i: int) -> nat
    decreases s.len() - i,
{
    if 0 <= i < s.len() && is_digit(s[i]) {
        1 + digit_run(s, i + 1)
    } else {
        0
    }
}

/// How many FNC1 characters follow one another from position `i`.
pub open spec fn fnc1_run(s: Seq<char>, i: int) -> nat
    decreases s.len() - i,
{
    if 0 <= i < s.len() && s[i] == ESCAPE_FNC_1 {
        1 + fnc1_run(s, i + 1)
    } else {
        0
    }
}

// ---------------------------------------------------------------------------
// Automatic mode
// ---------------------------------------------------------------------------

/// The start set in automatic mode: Code C when four digits follow the
/// leading FNC1 characters, else Code B.
pub open spec fn auto_start(s: Seq<char>) -> CodeSet {
    if digit_run(s, fnc1_run(s, 0) as int) >= 4 {
        CodeSet::C
    } else {
        CodeSet::B
    }
}

/// The values that automatic mode emits for `s` from position `i` on, in set `set`.
pub open spec fn auto_tail(s: Seq<char>, i: int, set: CodeSet) -> Seq<u8>
    decreases s.len() - i,
{
    if i < 0 || i >= s.len() {
        seq![]
    } else if s[i] == ESCAPE_FNC_1 {
        seq![FNC1] + auto_tail(s, i + 1, set)
    } else {
        let switch = set != CodeSet::C && digit_run(s, i) >= 4;
        let pre: Seq<u8> = if switch {
            seq![CODE_C_SWITCH]
        } else {
            seq![]
        };
        let set2 = if switch {
            CodeSet::C
        } else {
            set
        };
        if set2 == CodeSet::C {
            if i + 1 < s.len() && is_digit(s[i]) && is_digit(s[i + 1]) {
                pre + seq![pair_value(s[i], s[i + 1])] + auto_tail(s, i + 2, CodeSet::C)
            } else {
                pre + seq![CODE_B_SWITCH, b_value(s[i])] + auto_tail(s, i + 1, CodeSet::B)
            }
        } else {
            pre + seq![b_value(s[i])] + auto_tail(s, i + 1, set2)
        }
    }
}

/// All symbol values of `s` in automatic mode, start value first.
pub open spec fn auto_codes(s: Seq<char>) -> Seq<u8> {
    seq![start_value(auto_start(s))] + auto_tail(s, 0, auto_start(s))
}

// ---------------------------------------------------------------------------
// Mode N: `>` followed by a character selects a set or emits FNC1
// ---------------------------------------------------------------------------

/// The set that a leading `>;` (Code C), `>:` (Code B), `>9` or `>0` (Code A)
/// asks for.
pub open spec fn requested_set(s: Seq<char>) -> Option<CodeSet> {
    if s.len() > 1 && s[0] == '>' {
        if s[1] == ';' {
            Some(CodeSet::C)
        } else if s[1] == ':' {
            Some(CodeSet::B)
        } else if s[1] == '9' || s[1] == '0' {
            Some(CodeSet::A)
        } else {
            None
        }
    } else {
        None
    }
}

/// The first position at or after `j` that is not the start of a `>8` pair.
pub open spec fn skip_fnc1_markers(s: Seq<char>, j: int) -> int
    decreases s.len() - j,
{
    if 0 <= j && j + 1 < s.len() && s[j] == '>' && s[j + 1] == '8' {
        skip_fnc1_markers(s, j + 2)
    } else {
        j
    }
}

/// The start set in mode N: Code B without a leading set selection; with one,
/// the selected set, or Code C when four digits follow it.
pub open spec fn no_mode_start(s: Seq<char>) -> CodeSet {
    match requested_set(s) {
        Some(r) => if r != CodeSet::C && digit_run(s, skip_fnc1_markers(s, 2)) >= 4 {
            CodeSet::C
        } else {
            r
        },
        None => CodeSet::B,
    }
}

/// The human-readable character of Code A value `v` (data values only).
pub open spec fn a_text(v: u8) -> Seq<char> {
    if v < 64 {
        seq![((v as int) + 32) as char]
    } else if v < 96 {
        seq![((v as int) - 64) as char]
    } else {
        seq![]
    }
}

/// Whether `>` followed by `c` is a set selection or FNC1.
pub open spec fn is_marker(c: char) -> bool {
    c == ':' || c == '2' || c == '4' || c == '7' || c == ';' || c == '1' || c == '6' || c == '9'
        || c == '0' || c == '3' || c == '5' || c == '8'
}

/// What `>` followed by `c` emits, and the set after it.
pub open spec fn marker_step(c: char, set: CodeSet) -> (Seq<u8>, CodeSet) {
    if c == ':' || c == '2' || c == '4' {
        if set != CodeSet::C {
            (seq![CODE_C_SWITCH], CodeSet::C)
        } else {
            (seq![], set)
        }
    } else if c == ';' || c == '1' || c == '6' {
        if set != CodeSet::B {
            (seq![CODE_B_SWITCH], CodeSet::B)
        } else {
            (seq![], set)
        }
    } else if c == '9' || c == '0' || c == '3' || c == '5' || c == '7' {
        if set != CodeSet::A {
            (seq![CODE_A_SWITCH], CodeSet::A)
        } else {
            (seq![], set)
        }
    } else {
        (seq![FNC1], set)
    }
}

/// The values and the human-readable text that mode N emits for `s` from
/// position `i` on, in set `set`; `auto` turns on the switch from Code B to
/// Code C before four digits (Code A keeps reading digit pairs).
pub open spec fn no_mode_tail(s: Seq<char>, i: int, set: CodeSet, auto: bool) -> (
    Seq<u8>,
    Seq<char>,
)
    decreases s.len() - i,
{
    if i < 0 || i >= s.len() {
        (seq![], seq![])
    } else if s[i] == '>' && i + 1 < s.len() && is_marker(s[i + 1]) {
        let (p, set2) = marker_step(s[i + 1], set);
        let rest = no_mode_tail(s, i + 2, set2, auto);
        (p + rest.0, rest.1)
    } else {
        let switch = auto && set == CodeSet::B && digit_run(s, i) >= 4;
        let pre: Seq<u8> = if switch {
            seq![CODE_C_SWITCH]
        } else {
            seq![]
        };
        let set2 = if switch {
            CodeSet::C
        } else {
            set
        };
        if set2 == CodeSet::C {
            if i + 1 < s.len() && is_digit(s[i]) && is_digit(s[i + 1]) {
                let rest = no_mode_tail(s, i + 2, CodeSet::C, auto);
                (pre + seq![pair_value(s[i], s[i + 1])] + rest.0, seq![s[i], s[i + 1]] + rest.1)
            } else {
                let rest = no_mode_tail(s, i + 1, CodeSet::B, auto);
                (pre + seq![CODE_B_SWITCH, b_value(s[i])] + rest.0, seq![s[i]] + rest.1)
            }
        } else if set2 == CodeSet::A {
            if i + 1 < s.len() && is_digit(s[i]) && is_digit(s[i + 1]) {
                let v = pair_value(s[i], s[i + 1]);
                let rest = no_mode_tail(s, i + 2, CodeSet::A, auto);
                (pre + seq![v] + rest.0, a_text(v) + rest.1)
            } else {
                let rest = no_mode_tail(s, i + 1, CodeSet::A, auto);
                (pre + seq![a_value(s[i])] + rest.0, seq![s[i]] + rest.1)
            }
        } else {
            let rest = no_mode_tail(s, i + 1, set2, auto);
            (pre + seq![b_value(s[i])] + rest.0, seq![s[i]] + rest.1)
        }
    }
}

/// Where mode N starts reading data: after a leading set selection.
pub open spec fn no_mode_first(s: Seq<char>) -> int {
    if requested_set(s) is Some {
        2
    } else {
        0
    }
}

/// All symbol values of `s` in mode N, start value first.
pub open spec fn no_mode_codes(s: Seq<char>) -> Seq<u8> {
    seq![start_value(no_mode_start(s))] + no_mode_tail(
        s,
        no_mode_first(s),
        no_mode_start(s),
        requested_set(s) is Some,
    ).0
}

/// The human-readable text of `s` in mode N.
pub open spec fn no_mode_text(s: Seq<char>) -> Seq<char> {
    no_mode_tail(s, no_mode_first(s), no_mode_start(s), requested_set(s) is Some).1
}

// ---------------------------------------------------------------------------
// UCC case mode
// ---------------------------------------------------------------------------

/// The ASCII digits of `s`, in order.
pub open spec fn digits_of(s: Seq<char>) -> Seq<char>
    decreases s.len(),
{
    if s.len() == 0 {
        seq![]
    } else {
        digits_of(s.drop_last()) + if is_digit(s.last()) {
            seq![s.last()]
        } else {
            seq![]
        }
    }
}

/// At most the first 19 items of `d`.
pub open spec fn first19(d: Seq<char>) -> Seq<char> {
    if d.len() >= 19 {
        d.take(19)
    } else {
        d
    }
}

/// The 19 data digits of UCC case mode: the first 19 digits of `s`, padded
/// on the right with `0`.
pub open spec fn ucc_digits(s: Seq<char>) -> Seq<char> {
    first19(digits_of(s)) + Seq::new((19 - first19(digits_of(s)).len()) as nat, |k: int| '0')
}

/// The GS1 weighted digit sum, read from the right; the rightmost digit
/// weighs 3 when `triple` holds, and the weights alternate 3 and 1.
pub open spec fn gs1_sum(d: Seq<char>, triple: bool) -> int
    decreases d.len(),
{
    if d.len() == 0 {
        0
    } else {
        digit_val(d.last()) * (if triple {
            3int
        } else {
            1int
        }) + gs1_sum(d.drop_last(), !triple)
    }
}

/// The GS1 Mod-10 check digit of `d`.
pub open spec fn gs1_check(d: Seq<char>) -> char {
    (('0' as int) + (10 - gs1_sum(d, true) % 10) % 10) as char
}

/// Field data in UCC case mode: FNC1, the 19 data digits and their check digit.
pub open spec fn ucc_data(s: Seq<char>) -> Seq<char> {
    seq![ESCAPE_FNC_1] + ucc_digits(s) + seq![gs1_check(ucc_digits(s))]
}

proof fn lemma_seq_shift<T>(a: Seq<T>, p: Seq<T>, t: Seq<T>)
    ensures
        a + (p + t) == (a + p) + t,
{
    assert(a + (p + t) =~= (a + p) + t);
}

/// Appends `w` modules of one kind.
fn push_run(v: &mut Vec<bool>, w: u8, bar: bool)
    ensures
        final(v)@ == old(v)@ + run(w as int, bar),
{
    let mut k: u8 = 0;
    while k < w
        invariant
            k <= w,
            v@ == old(v)@ + run(k as int, bar),
        decreases w - k,
    {
        v.push(bar);
        proof {
            assert(v@ =~= old(v)@ + run(k as int + 1, bar));
        }
        k += 1;
    }
}

/// Appends the modules of one symbol value.
fn push_symbol(v: &mut Vec<bool>, code: u8)
    ensures
        final(v)@ == old(v)@ + symbol_modules(code),
{
    let (a, b, c, d, e, f) = code_widths(code);
    push_run(v, a, true);
    push_run(v, b, false);
    push_run(v, c, true);
    push_run(v, d, false);
    push_run(v, e, true);
    push_run(v, f, false);
    assert(v@ =~= old(v)@ + symbol_modules(code));
}

/// Appends the stop pattern.
fn push_stop(v: &mut Vec<bool>)
    ensures
        final(v)@ == old(v)@ + stop_modules(),
{
    push_run(v, 2, true);
    push_run(v, 3, false);
    push_run(v, 3, true);
    push_run(v, 1, false);
    push_run(v, 1, true);
    push_run(v, 1, false);
    push_run(v, 2, true);
    assert(v@ =~= old(v)@ + stop_modules());
}

/// The module row of a list of symbol values whose last value is the stop value.
fn encode_pattern(codes: &[u8]) -> (m: BitMatrix)
    requires
        codes@.len() >= 1,
    ensures
        m.wf(),
        m.spec_height() == 1,
        m.cells() == data_modules(codes@.drop_last()) + stop_modules(),
        m.spec_width() == m.cells().len(),
{
    let mut row: Vec<bool> = Vec::new();
    let last = codes.len() - 1;
    let mut k: usize = 0;
    while k < last
        invariant
            k <= last,
            last == codes@.len() - 1,
            row@ == data_modules(codes@.take(k as int)),
        decreases last - k,
    {
        push_symbol(&mut row, codes[k]);
        proof {
            assert(codes@.take(k + 1).drop_last() =~= codes@.take(k as int));
        }
        k += 1;
    }
    push_stop(&mut row);
    proof {
        assert(codes@.take(last as int) =~= codes@.drop_last());
    }
    BitMatrix::from_row(row)
}

proof fn lemma_check_step(w: int, k: int, c: int)
    requires
        k >= 0,
    ensures
        ((w % 103) + (k % 103) * c) % 103 == (w + k * c) % 103,
{
    vstd::arithmetic::div_mod::lemma_add_mod_noop_right(w % 103, (k % 103) * c, 103);
    vstd::arithmetic::div_mod::lemma_mul_mod_noop_left(k, c, 103);
    vstd::arithmetic::div_mod::lemma_add_mod_noop(w, k * c, 103);
    vstd::arithmetic::div_mod::lemma_add_mod_noop_right(w % 103, k * c, 103);
}

/// The check value of `codes` (start value first).
fn check_value_of(codes: &[u8]) -> (r: u8)
    requires
        codes@.len() >= 1,
    ensures
        r as int == check_value(codes@),
{
    let n = codes.len();
    let mut cs: u32 = (codes[0] as u32) % 103;
    let mut k: usize = 1;
    proof {
        assert(codes@.take(1).len() == 1);
        assert(codes@.take(1)[0] == codes@[0]);
    }
    while k < n
        invariant
            1 <= k <= n,
            n == codes@.len(),
            cs < 103,
            cs as int == weighted_sum(codes@.take(k as int)) % 103,
        decreases n - k,
    {
        let c = codes[k];
        let kk: u32 = (k % 103) as u32;
        proof {
            let t = codes@.take(k + 1);
            assert(t.drop_last() =~= codes@.take(k as int));
            assert(t.last() == c);
            assert(weighted_sum(t) == weighted_sum(codes@.take(k as int)) + k * c);
            lemma_check_step(weighted_sum(codes@.take(k as int)), k as int, c as int);
            assert(0 <= kk * c <= 102 * 255) by (nonlinear_arith)
                requires
                    kk < 103,
                    c <= 255,
            ;
        }
        cs = (cs + kk * (c as u32)) % 103;
        k += 1;
    }
    proof {
        assert(codes@.take(n as int) =~= codes@);
    }
    cs as u8
}

/// The module row of a start value and data values: adds the check value and
/// the stop pattern.
fn symbol_matrix(codes: Vec<u8>) -> (m: BitMatrix)
    requires
        codes@.len() >= 1,
    ensures
        m.wf(),
        m.spec_height() == 1,
        m.cells() == symbol_row(codes@),
        m.spec_width() == m.cells().len(),
{
    let ghost c0 = codes@;
    let check = check_value_of(&codes);
    let mut all = codes;
    all.push(check);
    all.push(STOP);
    proof {
        assert(all@.drop_last() =~= c0.push(check_value(c0) as u8));
    }
    encode_pattern(&all)
}

/// How many ASCII digits follow one another from `from` (`count_digits`).
fn count_digits(s: &[char], from: usize) -> (r: usize)
    requires
        from <= s@.len(),
    ensures
        r == digit_run(s@, from as int),
        from + r <= s@.len(),
{
    let mut j = from;
    while j < s.len() && is_digit_char(s[j])
        invariant
            from <= j <= s@.len(),
            digit_run(s@, from as int) == (j - from) + digit_run(s@, j as int),
        decreases s@.len() - j,
    {
        j += 1;
    }
    j - from
}

/// How many FNC1 characters follow one another from `from`.
fn count_fnc1(s: &[char], from: usize) -> (r: usize)
    requires
        from <= s@.len(),
    ensures
        r == fnc1_run(s@, from as int),
        from + r <= s@.len(),
{
    let mut j = from;
    while j < s.len() && s[j] == ESCAPE_FNC_1
        invariant
            from <= j <= s@.len(),
            fnc1_run(s@, from as int) == (j - from) + fnc1_run(s@, j as int),
        decreases s@.len() - j,
    {
        j += 1;
    }
    j - from
}

fn start_code(set: CodeSet) -> (r: u8)
    ensures
        r == start_value(set),
{
    match set {
        CodeSet::A => CODE_A_START,
        CodeSet::B => CODE_B_START,
        CodeSet::C => CODE_C_START,
    }
}

fn b_code(c: char) -> (r: u8)
    ensures
        r == b_value(c),
{
    let b = (c as u32) % 256;
    if 32 <= b && b <= 127 {
        (b - 32) as u8
    } else {
        0
    }
}

fn a_code(c: char) -> (r: u8)
    ensures
        r == a_value(c),
{
    let b = (c as u32) % 256;
    if 32 <= b && b <= 95 {
        (b - 32) as u8
    } else if b < 32 {
        (b + 64) as u8
    } else {
        0
    }
}

fn pair_code(c1: char, c2: char) -> (r: u8)
    requires
        is_digit(c1),
        is_digit(c2),
    ensures
        r == pair_value(c1, c2),
{
    ((c1 as u8) - 48) * 10 + ((c2 as u8) - 48)
}

/// One step of automatic mode: emits the values for position `i` and
/// returns the next position and set.
fn auto_step(s: &Vec<char>, i: usize, set: CodeSet, out: &mut Vec<u8>) -> (r: (usize, CodeSet))
    requires
        i < s@.len(),
    ensures
        i < r.0 <= s@.len(),
        old(out)@ + auto_tail(s@, i as int, set) == final(out)@ + auto_tail(s@, r.0 as int, r.1),
        final(out)@.len() >= old(out)@.len(),
{
    let ghost s0 = out@;
    let n = s.len();
    let ch = s[i];
    if ch == ESCAPE_FNC_1 {
        out.push(FNC1);
        proof {
            lemma_seq_shift(s0, seq![FNC1], auto_tail(s@, i + 1, set));
            assert(out@ =~= s0 + seq![FNC1]);
        }
        return (i + 1, set);
    }
    let mut set2 = set;
    let ghost mut pre: Seq<u8> = seq![];
    if set != CodeSet::C {
        let dr = count_digits(s.as_slice(), i);
        if dr >= 4 {
            out.push(CODE_C_SWITCH);
            set2 = CodeSet::C;
            proof {
                pre = seq![CODE_C_SWITCH];
            }
        }
    }
    assert(out@ =~= s0 + pre);
    if set2 == CodeSet::C {
        if i + 1 < s.len() && is_digit_char(ch) && is_digit_char(s[i + 1]) {
            let v = pair_code(ch, s[i + 1]);
            out.push(v);
            proof {
                lemma_seq_shift(s0, pre + seq![v], auto_tail(s@, i + 2, CodeSet::C));
                assert(out@ =~= s0 + (pre + seq![v]));
            }
            (i + 2, CodeSet::C)
        } else {
            let b = b_code(ch);
            out.push(CODE_B_SWITCH);
            out.push(b);
            proof {
                lemma_seq_shift(s0, pre + seq![CODE_B_SWITCH, b], auto_tail(s@, i + 1, CodeSet::B));
                assert(out@ =~= s0 + (pre + seq![CODE_B_SWITCH, b]));
            }
            (i + 1, CodeSet::B)
        }
    } else {
        let b = b_code(ch);
        out.push(b);
        proof {
            lemma_seq_shift(s0, pre + seq![b], auto_tail(s@, i + 1, set2));
            assert(out@ =~= s0 + (pre + seq![b]));
        }
        (i + 1, set2)
    }
}

/// The module row of Code 128 in automatic mode: Code C for runs of four or more digits,
/// Code B otherwise, FNC1 wherever `ESCAPE_FNC_1` stands.
pub fn auto_pattern(content: &str) -> (m: BitMatrix)
    ensures
        m.wf(),
        m.spec_height() == 1,
        m.cells() == symbol_row(auto_codes(content@)),
        m.spec_width() == m.cells().len(),
{
    let s = chars_of(content);
    let n = s.len();
    let skip = count_fnc1(s.as_slice(), 0);
    let lead = count_digits(s.as_slice(), skip);
    let set = if lead >= 4 {
        CodeSet::C
    } else {
        CodeSet::B
    };
    let mut codes: Vec<u8> = Vec::new();
    codes.push(start_code(set));
    let mut i: usize = 0;
    let mut cur = set;
    proof {
        assert(codes@ + auto_tail(s@, 0, set) =~= auto_codes(content@));
    }
    while i < n
        invariant
            i <= n,
            n == s@.len(),
            s@ == content@,
            codes@.len() >= 1,
            codes@ + auto_tail(s@, i as int, cur) == auto_codes(content@),
        decreases n - i,
    {
        let (ni, ns) = auto_step(&s, i, cur, &mut codes);
        i = ni;
        cur = ns;
    }
    proof {
        assert(codes@ + auto_tail(s@, i as int, cur) =~= codes@);
    }
    symbol_matrix(codes)
}

fn is_marker_char(c: char) -> (b: bool)
    ensures
        b == is_marker(c),
{
    c == ':' || c == '2' || c == '4' || c == '7' || c == ';' || c == '1' || c == '6' || c == '9'
        || c == '0' || c == '3' || c == '5' || c == '8'
}

/// One step of mode N: emits the values and text for position `i` and
/// returns the next position and set.
fn no_mode_step(
    s: &Vec<char>,
    i: usize,
    set: CodeSet,
    auto: bool,
    out: &mut Vec<u8>,
    text: &mut Vec<char>,
) -> (r: (usize, CodeSet))
    requires
        i < s@.len(),
    ensures
        i < r.0 <= s@.len(),
        old(out)@ + no_mode_tail(s@, i as int, set, auto).0 == final(out)@ + no_mode_tail(
            s@,
            r.0 as int,
            r.1,
            auto,
        ).0,
        old(text)@ + no_mode_tail(s@, i as int, set, auto).1 == final(text)@ + no_mode_tail(
            s@,
            r.0 as int,
            r.1,
            auto,
        ).1,
        final(out)@.len() >= old(out)@.len(),
{
    let ghost s0 = out@;
    let ghost t0 = text@;
    let n = s.len();
    let ch = s[i];
    if ch == '>' && i + 1 < s.len() && is_marker_char(s[i + 1]) {
        let c = s[i + 1];
        let ghost p = marker_step(c, set).0;
        let next = if c == ':' || c == '2' || c == '4' {
            if set != CodeSet::C {
                out.push(CODE_C_SWITCH);
            }
            CodeSet::C
        } else if c == ';' || c == '1' || c == '6' {
            if set != CodeSet::B {
                out.push(CODE_B_SWITCH);
            }
            CodeSet::B
        } else if c == '9' || c == '0' || c == '3' || c == '5' || c == '7' {
            if set != CodeSet::A {
                out.push(CODE_A_SWITCH);
            }
            CodeSet::A
        } else {
            out.push(FNC1);
            set
        };
        proof {
            assert(next == marker_step(c, set).1);
            assert(out@ =~= s0 + p);
            lemma_seq_shift(s0, p, no_mode_tail(s@, i + 2, next, auto).0);
        }
        return (i + 2, next);
    }
    let mut set2 = set;
    let ghost mut pre: Seq<u8> = seq![];
    if auto && set == CodeSet::B {
        let dr = count_digits(s.as_slice(), i);
        if dr >= 4 {
            out.push(CODE_C_SWITCH);
            set2 = CodeSet::C;
            proof {
                pre = seq![CODE_C_SWITCH];
            }
        }
    }
    assert(out@ =~= s0 + pre);
    if set2 == CodeSet::C {
        if i + 1 < s.len() && is_digit_char(ch) && is_digit_char(s[i + 1]) {
            let c2 = s[i + 1];
            let v = pair_code(ch, c2);
            out.push(v);
            text.push(ch);
            text.push(c2);
            proof {
                let rest = no_mode_tail(s@, i + 2, CodeSet::C, auto);
                lemma_seq_shift(s0, pre + seq![v], rest.0);
                lemma_seq_shift(t0, seq![ch, c2], rest.1);
                assert(out@ =~= s0 + (pre + seq![v]));
                assert(text@ =~= t0 + seq![ch, c2]);
            }
            (i + 2, CodeSet::C)
        } else {
            let b = b_code(ch);
            out.push(CODE_B_SWITCH);
            out.push(b);
            text.push(ch);
            proof {
                let rest = no_mode_tail(s@, i + 1, CodeSet::B, auto);
                lemma_seq_shift(s0, pre + seq![CODE_B_SWITCH, b], rest.0);
                lemma_seq_shift(t0, seq![ch], rest.1);
                assert(out@ =~= s0 + (pre + seq![CODE_B_SWITCH, b]));
                assert(text@ =~= t0 + seq![ch]);
            }
            (i + 1, CodeSet::B)
        }
    } else if set2 == CodeSet::A && i + 1 < s.len() && is_digit_char(ch) && is_digit_char(s[i + 1]) {
        let c2 = s[i + 1];
        let v = pair_code(ch, c2);
        out.push(v);
        if v < 64 {
            text.push(((v + 32) as u8) as char);
        } else if v < 96 {
            text.push(((v - 64) as u8) as char);
        }
        proof {
            let rest = no_mode_tail(s@, i + 2, CodeSet::A, auto);
            lemma_seq_shift(s0, pre + seq![v], rest.0);
            lemma_seq_shift(t0, a_text(v), rest.1);
            assert(out@ =~= s0 + (pre + seq![v]));
            assert(text@ =~= t0 + a_text(v));
        }
        (i + 2, CodeSet::A)
    } else if set2 == CodeSet::A {
        let a = a_code(ch);
        out.push(a);
        text.push(ch);
        proof {
            let rest = no_mode_tail(s@, i + 1, CodeSet::A, auto);
            lemma_seq_shift(s0, pre + seq![a], rest.0);
            lemma_seq_shift(t0, seq![ch], rest.1);
            assert(out@ =~= s0 + (pre + seq![a]));
            assert(text@ =~= t0 + seq![ch]);
        }
        (i + 1, CodeSet::A)
    } else {
        let b = b_code(ch);
        out.push(b);
        text.push(ch);
        proof {
            let rest = no_mode_tail(s@, i + 1, set2, auto);
            lemma_seq_shift(s0, pre + seq![b], rest.0);
            lemma_seq_shift(t0, seq![ch], rest.1);
            assert(out@ =~= s0 + (pre + seq![b]));
            assert(text@ =~= t0 + seq![ch]);
        }
        (i + 1, set2)
    }
}

/// The first position at or after `j` that does not start a `>8` pair.
fn skip_markers(s: &[char], j: usize) -> (r: usize)
    requires
        j <= s@.len(),
    ensures
        r == skip_fnc1_markers(s@, j as int),
        r <= s@.len(),
{
    let n = s.len();
    let mut k = j;
    while k < n && k + 1 < n && s[k] == '>' && s[k + 1] == '8'
        invariant
            j <= k <= s@.len(),
            n == s@.len(),
            skip_fnc1_markers(s@, j as int) == skip_fnc1_markers(s@, k as int),
        decreases s@.len() - k,
    {
        k += 2;
    }
    k
}

/// The module row of Code 128 in mode N: `>` commands select the set (`>;` Code C, `>:` Code B,
/// `>9` Code A at the start; `>6` Code B and `>7` Code A in the data) or emit
/// FNC1 (`>8`); in Codes A and C digit pairs give the symbol values.
/// Returns the module row and the human-readable text.
pub fn no_mode_pattern(content: &str) -> (r: (BitMatrix, String))
    ensures
        r.0.wf(),
        r.0.spec_height() == 1,
        r.0.cells() == symbol_row(no_mode_codes(content@)),
        r.0.spec_width() == r.0.cells().len(),
        r.1@ == no_mode_text(content@),
{
    let s = chars_of(content);
    let n = s.len();
    let mut requested: Option<CodeSet> = None;
    if n > 1 && s[0] == '>' {
        if s[1] == ';' {
            requested = Some(CodeSet::C);
        } else if s[1] == ':' {
            requested = Some(CodeSet::B);
        } else if s[1] == '9' || s[1] == '0' {
            requested = Some(CodeSet::A);
        }
    }
    assert(requested == requested_set(content@));
    let auto = requested.is_some();
    let mut i: usize = if auto {
        2
    } else {
        0
    };
    let set = match requested {
        Some(r) => {
            let look = skip_markers(s.as_slice(), 2);
            let dr = count_digits(s.as_slice(), look);
            if r != CodeSet::C && dr >= 4 {
                CodeSet::C
            } else {
                r
            }
        },
        None => CodeSet::B,
    };
    assert(set == no_mode_start(content@));
    let mut codes: Vec<u8> = Vec::new();
    codes.push(start_code(set));
    let mut text: Vec<char> = Vec::new();
    let mut cur = set;
    proof {
        assert(codes@ + no_mode_tail(s@, i as int, set, auto).0 =~= no_mode_codes(content@));
        assert(text@ + no_mode_tail(s@, i as int, set, auto).1 =~= no_mode_text(content@));
    }
    while i < n
        invariant
            i <= n,
            n == s@.len(),
            s@ == content@,
            codes@.len() >= 1,
            codes@ + no_mode_tail(s@, i as int, cur, auto).0 == no_mode_codes(content@),
            text@ + no_mode_tail(s@, i as int, cur, auto).1 == no_mode_text(content@),
        decreases n - i,
    {
        let (ni, ns) = no_mode_step(&s, i, cur, auto, &mut codes, &mut text);
        i = ni;
        cur = ns;
    }
    proof {
        assert(codes@ + no_mode_tail(s@, i as int, cur, auto).0 =~= codes@);
        assert(text@ + no_mode_tail(s@, i as int, cur, auto).1 =~= text@);
    }
    let m = symbol_matrix(codes);
    let mut out = String::new();
    let mut k: usize = 0;
    while k < text.len()
        invariant
            k <= text@.len(),
            out@ == text@.take(k as int),
        decreases text@.len() - k,
    {
        push_char(&mut out, text[k]);
        proof {
            assert(text@.take(k + 1) =~= text@.take(k as int).push(text@[k as int]));
        }
        k += 1;
    }
    proof {
        assert(text@.take(text@.len() as int) =~= text@);
    }
    (m, out)
}

/// The GS1 Mod-10 check digit of `digits`; the rightmost digit weighs 3 and
/// the weights alternate 3 and 1 leftwards.
fn gs1_mod10_check(digits: &[char]) -> (r: char)
    requires
        digits@.len() <= 19,
        forall|k: int| 0 <= k < digits@.len() ==> is_digit(#[trigger] digits@[k]),
    ensures
        r == gs1_check(digits@),
{
    let n = digits.len();
    let mut sum: u32 = 0;
    let mut k: usize = n;
    let mut triple = true;
    proof {
        assert(digits@.take(n as int) =~= digits@);
    }
    while k > 0
        invariant
            k <= n,
            n == digits@.len(),
            n <= 19,
            forall|j: int| 0 <= j < digits@.len() ==> is_digit(#[trigger] digits@[j]),
            sum <= 27 * (n - k),
            sum as int + gs1_sum(digits@.take(k as int), triple) == gs1_sum(digits@, true),
        decreases k,
    {
        let c = digits[k - 1];
        let d = (c as u32) - 48;
        proof {
            let t = digits@.take(k as int);
            assert(t.drop_last() =~= digits@.take(k - 1));
            assert(t.last() == c);
        }
        if triple {
            sum = sum + d * 3;
        } else {
            sum = sum + d;
        }
        triple = !triple;
        k -= 1;
    }
    proof {
        assert(digits@.take(0) =~= Seq::<char>::empty());
    }
    let check = (10 - sum % 10) % 10;
    ((48 + check) as u8) as char
}

/// Field data for `^BC` mode U (UCC case mode): FNC1, then the first 19
/// digits of `content` padded on the right with `0`, then their GS1 check digit.
pub fn prepare_ucc_mode_data(content: &str) -> (r: String)
    ensures
        r@ == ucc_data(content@),
{
    let s = chars_of(content);
    let n = s.len();
    let mut digits: Vec<char> = Vec::new();
    let mut i: usize = 0;
    while i < n
        invariant
            i <= n,
            n == s@.len(),
            s@ == content@,
            digits@ == first19(digits_of(s@.take(i as int))),
        decreases n - i,
    {
        let c = s[i];
        proof {
            let t = s@.take(i + 1);
            assert(t.drop_last() =~= s@.take(i as int));
            assert(t.last() == c);
            let d0 = digits_of(s@.take(i as int));
            if d0.len() >= 19 {
                assert((d0 + seq![c]).take(19) =~= d0.take(19));
            }
        }
        if is_digit_char(c) && digits.len() < 19 {
            digits.push(c);
            proof {
                let d0 = digits_of(s@.take(i as int));
                assert(digits@ =~= first19(d0 + seq![c]));
            }
        }
        proof {
            let d0 = digits_of(s@.take(i as int));
            if !is_digit(c) {
                assert(digits_of(s@.take(i + 1)) =~= d0);
            }
        }
        i += 1;
    }
    proof {
        assert(s@.take(n as int) =~= s@);
    }
    let ghost head = digits@;
    while digits.len() < 19
        invariant
            digits@.len() <= 19,
            head.len() <= digits@.len(),
            digits@ == head + Seq::new((digits@.len() - head.len()) as nat, |k: int| '0'),
        decreases 19 - digits@.len(),
    {
        digits.push('0');
        proof {
            assert(digits@ =~= head + Seq::new((digits@.len() - head.len()) as nat, |k: int| '0'));
        }
    }
    proof {
        assert(digits@ =~= ucc_digits(content@));
        assert forall|k: int| 0 <= k < digits@.len() implies is_digit(#[trigger] digits@[k]) by {
            if k < head.len() {
                lemma_digits_of_digits(s@);
                assert(head[k] == digits_of(s@)[k]);
            }
        }
    }
    let check = gs1_mod10_check(digits.as_slice());
    let mut out = String::new();
    push_char(&mut out, ESCAPE_FNC_1);
    let mut k: usize = 0;
    while k < 19
        invariant
            k <= 19,
            digits@.len() == 19,
            out@ == seq![ESCAPE_FNC_1] + digits@.take(k as int),
        decreases 19 - k,
    {
        push_char(&mut out, digits[k]);
        proof {
            assert(digits@.take(k + 1) =~= digits@.take(k as int).push(digits@[k as int]));
            assert(out@ =~= seq![ESCAPE_FNC_1] + digits@.take(k + 1));
        }
        k += 1;
    }
    push_char(&mut out, check);
    proof {
        assert(digits@.take(19) =~= digits@);
        assert(out@ =~= ucc_data(content@));
    }
    out
}

proof fn lemma_digits_of_digits(s: Seq<char>)
    ensures
        forall|k: int| 0 <= k < digits_of(s).len() ==> is_digit(#[trigger] digits_of(s)[k]),
    decreases s.len(),
{
    if s.len() > 0 {
        lemma_digits_of_digits(s.drop_last());
        let p = digits_of(s.drop_last());
        assert forall|k: int| 0 <= k < digits_of(s).len() implies is_digit(
            #[trigger] digits_of(s)[k],
        ) by {
            if k < p.len() {
                assert(digits_of(s)[k] == p[k]);
            }
        }
    }
}


/// Code 128 in automatic mode drawn as bars `bar_width` pixels wide (at least
/// 1) and `height` pixels tall (at least 1).
pub fn encode_auto(content: &str, height: i32, bar_width: i32) -> (r: Result<BitMatrix, String>)
    requires
        symbol_row(auto_codes(content@)).len() * at_least_one(bar_width) * at_least_one(height)
            <= usize::MAX,
    ensures
        r matches Ok(img) && img.is_bars(
            symbol_row(auto_codes(content@)),
            at_least_one(bar_width),
            at_least_one(height),
        ),
{
    let bm = auto_pattern(content);
    let bw: usize = if bar_width > 1 { bar_width as usize } else { 1 };
    let h: usize = if height > 1 { height as usize } else { 1 };
    proof {
        assert(bm.spec_width() * bw <= usize::MAX) by (nonlinear_arith)
            requires
                bm.spec_width() * bw * h <= usize::MAX,
                h >= 1,
        ;
    }
    Ok(bm.to_1d_image(bw, h))
}

/// Code 128 in mode N drawn as bars `bar_width` pixels wide (at least 1) and
/// `height` pixels tall (at least 1), with its human-readable text.
pub fn encode_no_mode(content: &str, height: i32, bar_width: i32) -> (r: Result<(BitMatrix, String), String>)
    requires
        symbol_row(no_mode_codes(content@)).len() * at_least_one(bar_width) * at_least_one(height)
            <= usize::MAX,
    ensures
        r matches Ok(p) && p.0.is_bars(
            symbol_row(no_mode_codes(content@)),
            at_least_one(bar_width),
            at_least_one(height),
        ) && p.1@ == no_mode_text(content@),
{
    let (bm, text) = no_mode_pattern(content);
    let bw: usize = if bar_width > 1 { bar_width as usize } else { 1 };
    let h: usize = if height > 1 { height as usize } else { 1 };
    proof {
        assert(bm.spec_width() * bw <= usize::MAX) by (nonlinear_arith)
            requires
                bm.spec_width() * bw * h <= usize::MAX,
                h >= 1,
        ;
    }
    Ok((bm.to_1d_image(bw, h), text))
}


/// The text that the automatic encoder reads in `mode`: modes U and D put
/// FNC1 in front of the field data.
pub open spec fn mode_content(content: Seq<char>, mode: BarcodeMode) -> Seq<char> {
    if mode == BarcodeMode::Ucc || mode == BarcodeMode::Ean {
        seq![ESCAPE_FNC_1] + content
    } else {
        content
    }
}

/// Code 128 for a field in `mode`, with the text to print with it: mode N
/// through [`encode_no_mode`], the other modes through [`encode_auto`] on
/// [`mode_content`], printing the field data as given.
pub fn encode_for_mode(content: &str, mode: BarcodeMode, height: i32, bar_width: i32) -> (r: Result<
    (BitMatrix, String),
    String,
>)
    requires
        mode == BarcodeMode::No ==> symbol_row(no_mode_codes(content@)).len() * at_least_one(
            bar_width,
        ) * at_least_one(height) <= usize::MAX,
        mode != BarcodeMode::No ==> symbol_row(auto_codes(mode_content(content@, mode))).len()
            * at_least_one(bar_width) * at_least_one(height) <= usize::MAX,
    ensures
        mode == BarcodeMode::No ==> (r matches Ok(p) && p.0.is_bars(
            symbol_row(no_mode_codes(content@)),
            at_least_one(bar_width),
            at_least_one(height),
        ) && p.1@ == no_mode_text(content@)),
        mode != BarcodeMode::No ==> (r matches Ok(p) && p.0.is_bars(
            symbol_row(auto_codes(mode_content(content@, mode))),
            at_least_one(bar_width),
            at_least_one(height),
        ) && p.1@ == content@),
{
    let c = chars_of(content);
    let text = string_of(&c);
    match mode {
        BarcodeMode::No => encode_no_mode(content, height, bar_width),
        BarcodeMode::Ucc | BarcodeMode::Ean => {
            let mut head: Vec<char> = Vec::new();
            head.push(ESCAPE_FNC_1);
            let all = join_chars(&head, &c);
            let s = string_of(&all);
            assert(s@ == mode_content(content@, mode));
            match encode_auto(s.as_str(), height, bar_width) {
                Ok(m) => Ok((m, text)),
                Err(e) => Err(e),
            }
        },
        _ => match encode_auto(content, height, bar_width) {
            Ok(m) => Ok((m, text)),
            Err(e) => Err(e),
        },
    }
}

/// Wider bars scale the automatic symbol: drawn from one content with bars
/// `w` pixels wide, it is `w` times as wide as with bars one pixel wide, as
/// tall as asked, and each of its pixels is the pixel of the narrow symbol
/// under it.
pub proof fn lemma_auto_bar_width_scales(
    content: Seq<char>,
    wide: BitMatrix,
    narrow: BitMatrix,
    w: int,
    h: int,
)
    requires
        w >= 1,
        h >= 1,
        wide.is_bars(symbol_row(auto_codes(content)), w, h),
        narrow.is_bars(symbol_row(auto_codes(content)), 1, h),
    ensures
        wide.spec_width() == w * narrow.spec_width(),
        wide.spec_height() == h,
        narrow.spec_height() == h,
        forall|x: int, y: int|
            0 <= x < wide.spec_width() && 0 <= y < h ==> #[trigger] wide.bit(x, y) == narrow.bit(
                x / w,
                y,
            ),
{
    let row = symbol_row(auto_codes(content));
    let n = row.len() as int;
    assert(n * w == w * n) by (nonlinear_arith);
    assert(n * 1 == n);
    assert forall|x: int, y: int| 0 <= x < wide.spec_width() && 0 <= y < h implies #[trigger] wide.bit(
        x,
        y,
    ) == narrow.bit(x / w, y) by {
        assert(0 <= x / w < n) by (nonlinear_arith)
            requires
                0 <= x < n * w,
                w >= 1,
        ;
        assert((x / w) / 1 == x / w);
        assert(narrow.bit(x / w, y) == row[(x / w) / 1]);
    }
}

proof fn lemma_runs_after_fnc1(s: Seq<char>, i: int)
    requires
        0 <= i,
    ensures
        digit_run(seq![ESCAPE_FNC_1] + s, i + 1) == digit_run(s, i),
        fnc1_run(seq![ESCAPE_FNC_1] + s, i + 1) == fnc1_run(s, i),
    decreases s.len() - i,
{
    let t = seq![ESCAPE_FNC_1] + s;
    if i < s.len() {
        assert(t[i + 1] == s[i]);
        lemma_runs_after_fnc1(s, i + 1);
    }
}

proof fn lemma_auto_tail_after_fnc1(s: Seq<char>, i: int, set: CodeSet)
    requires
        0 <= i,
    ensures
        auto_tail(seq![ESCAPE_FNC_1] + s, i + 1, set) == auto_tail(s, i, set),
    decreases s.len() - i,
{
    let t = seq![ESCAPE_FNC_1] + s;
    if i < s.len() {
        assert(t[i + 1] == s[i]);
        lemma_runs_after_fnc1(s, i);
        if i + 1 < s.len() {
            assert(t[i + 2] == s[i + 1]);
        }
        lemma_auto_tail_after_fnc1(s, i + 1, CodeSet::B);
        lemma_auto_tail_after_fnc1(s, i + 1, CodeSet::C);
        lemma_auto_tail_after_fnc1(s, i + 1, set);
        if i + 1 < s.len() {
            lemma_auto_tail_after_fnc1(s, i + 2, CodeSet::C);
        }
    }
}

/// A leading FNC1 adds exactly one symbol in automatic mode: the FNC1 value
/// right after the start value, the rest (start value included) unchanged.
pub proof fn lemma_leading_fnc1_adds_one_symbol(s: Seq<char>)
    ensures
        auto_codes(seq![ESCAPE_FNC_1] + s) == seq![auto_codes(s)[0], FNC1] + auto_codes(s).drop_first(),
{
    let t = seq![ESCAPE_FNC_1] + s;
    assert(t[0] == ESCAPE_FNC_1);
    lemma_runs_after_fnc1(s, 0);
    lemma_runs_after_fnc1(s, fnc1_run(s, 0) as int);
    assert(fnc1_run(t, 0) == 1 + fnc1_run(s, 0));
    assert(auto_start(t) == auto_start(s));
    lemma_auto_tail_after_fnc1(s, 0, auto_start(s));
    assert(auto_tail(t, 0, auto_start(s)) == seq![FNC1] + auto_tail(t, 1, auto_start(s)));
    assert(auto_codes(s).drop_first() =~= auto_tail(s, 0, auto_start(s)));
    assert(auto_codes(t) =~= seq![auto_codes(s)[0], FNC1] + auto_codes(s).drop_first());
}

/// Six bar and space widths as a number, written in base five.
pub open spec fn widths_number(w: (u8, u8, u8, u8, u8, u8)) -> int {
    3125 * w.0 + 625 * w.1 + 125 * w.2 + 25 * w.3 + 5 * w.4 + w.5
}

/// The symbol value that six bar and space widths stand for in the standard
/// Code 128 table, if any.
pub open spec fn code128_read(w: (u8, u8, u8, u8, u8, u8)) -> Option<u8> {
    let n = widths_number(w);
    if n == 7187 {
        Some(0u8)
    } else if n == 7787 {
        Some(1u8)
    } else if n == 7811 {
        Some(2u8)
    } else if n == 4563 {
        Some(3u8)
    } else if n == 4587 {
        Some(4u8)
    } else if n == 5187 {
        Some(5u8)
    } else if n == 4683 {
        Some(6u8)
    } else if n == 4707 {
        Some(7u8)
    } else if n == 5307 {
        Some(8u8)
    } else if n == 7683 {
        Some(9u8)
    } else if n == 7707 {
        Some(10u8)
    } else if n == 8307 {
        Some(11u8)
    } else if n == 4067 {
        Some(12u8)
    } else if n == 4667 {
        Some(13u8)
    } else if n == 4691 {
        Some(14u8)
    } else if n == 4187 {
        Some(15u8)
    } else if n == 4787 {
        Some(16u8)
    } else if n == 4811 {
        Some(17u8)
    } else if n == 7931 {
        Some(18u8)
    } else if n == 7667 {
        Some(19u8)
    } else if n == 7691 {
        Some(20u8)
    } else if n == 7307 {
        Some(21u8)
    } else if n == 7907 {
        Some(22u8)
    } else if n == 10291 {
        Some(23u8)
    } else if n == 10187 {
        Some(24u8)
    } else if n == 10787 {
        Some(25u8)
    } else if n == 10811 {
        Some(26u8)
    } else if n == 10307 {
        Some(27u8)
    } else if n == 10907 {
        Some(28u8)
    } else if n == 10931 {
        Some(29u8)
    } else if n == 7163 {
        Some(30u8)
    } else if n == 7211 {
        Some(31u8)
    } else if n == 8411 {
        Some(32u8)
    } else if n == 3963 {
        Some(33u8)
    } else if n == 5163 {
        Some(34u8)
    } else if n == 5211 {
        Some(35u8)
    } else if n == 4083 {
        Some(36u8)
    } else if n == 5283 {
        Some(37u8)
    } else if n == 5331 {
        Some(38u8)
    } else if n == 7083 {
        Some(39u8)
    } else if n == 8283 {
        Some(40u8)
    } else if n == 8331 {
        Some(41u8)
    } else if n == 4043 {
        Some(42u8)
    } else if n == 4091 {
        Some(43u8)
    } else if n == 5291 {
        Some(44u8)
    } else if n == 4163 {
        Some(45u8)
    } else if n == 4211 {
        Some(46u8)
    } else if n == 5411 {
        Some(47u8)
    } else if n == 10411 {
        Some(48u8)
    } else if n == 7091 {
        Some(49u8)
    } else if n == 8291 {
        Some(50u8)
    } else if n == 7283 {
        Some(51u8)
    } else if n == 7331 {
        Some(52u8)
    } else if n == 7291 {
        Some(53u8)
    } else if n == 10163 {
        Some(54u8)
    } else if n == 10211 {
        Some(55u8)
    } else if n == 11411 {
        Some(56u8)
    } else if n == 10283 {
        Some(57u8)
    } else if n == 10331 {
        Some(58u8)
    } else if n == 11531 {
        Some(59u8)
    } else if n == 10531 {
        Some(60u8)
    } else if n == 7731 {
        Some(61u8)
    } else if n == 14531 {
        Some(62u8)
    } else if n == 3939 {
        Some(63u8)
    } else if n == 3987 {
        Some(64u8)
    } else if n == 4539 {
        Some(65u8)
    } else if n == 4611 {
        Some(66u8)
    } else if n == 5787 {
        Some(67u8)
    } else if n == 5811 {
        Some(68u8)
    } else if n == 4059 {
        Some(69u8)
    } else if n == 4107 {
        Some(70u8)
    } else if n == 4659 {
        Some(71u8)
    } else if n == 4731 {
        Some(72u8)
    } else if n == 5907 {
        Some(73u8)
    } else if n == 5931 {
        Some(74u8)
    } else if n == 8931 {
        Some(75u8)
    } else if n == 7659 {
        Some(76u8)
    } else if n == 13531 {
        Some(77u8)
    } else if n == 8907 {
        Some(78u8)
    } else if n == 5531 {
        Some(79u8)
    } else if n == 3947 {
        Some(80u8)
    } else if n == 4547 {
        Some(81u8)
    } else if n == 4571 {
        Some(82u8)
    } else if n == 4307 {
        Some(83u8)
    } else if n == 4907 {
        Some(84u8)
    } else if n == 4931 {
        Some(85u8)
    } else if n == 13307 {
        Some(86u8)
    } else if n == 13907 {
        Some(87u8)
    } else if n == 13931 {
        Some(88u8)
    } else if n == 7171 {
        Some(89u8)
    } else if n == 7411 {
        Some(90u8)
    } else if n == 13411 {
        Some(91u8)
    } else if n == 3923 {
        Some(92u8)
    } else if n == 3971 {
        Some(93u8)
    } else if n == 5171 {
        Some(94u8)
    } else if n == 4283 {
        Some(95u8)
    } else if n == 4331 {
        Some(96u8)
    } else if n == 13283 {
        Some(97u8)
    } else if n == 13331 {
        Some(98u8)
    } else if n == 4171 {
        Some(99u8)
    } else if n == 4291 {
        Some(100u8)
    } else if n == 10171 {
        Some(101u8)
    } else if n == 13291 {
        Some(102u8)
    } else if n == 7107 {
        Some(103u8)
    } else if n == 7059 {
        Some(104u8)
    } else if n == 7067 {
        Some(105u8)
    } else if n == 8531 {
        Some(106u8)
    } else if n == 7042 {
        Some(107u8)
    } else {
        None
    }
}

proof fn lemma_code128_read_back_0(code: u8)
    requires
        0 <= code < 12,
    ensures
        code128_read(widths_of(code)) == Some(code),
        code < 106 ==> ({
            let w = widths_of(code);
            &&& w.0 + w.1 + w.2 + w.3 + w.4 + w.5 == 11
            &&& (w.0 + w.2 + w.4) % 2 == 0
            &&& 1 <= w.0 <= 4 && 1 <= w.1 <= 4 && 1 <= w.2 <= 4 && 1 <= w.3 <= 4 && 1 <= w.4 <= 4
                && 1 <= w.5 <= 4
        }),
{
    if code == 0 {
    } else if code == 1 {
    } else if code == 2 {
    } else if code == 3 {
    } else if code == 4 {
    } else if code == 5 {
    } else if code == 6 {
    } else if code == 7 {
    } else if code == 8 {
    } else if code == 9 {
    } else if code == 10 {
    } else if code == 11 {
    }
}

proof fn lemma_code128_read_back_12(code: u8)
    requires
        12 <= code < 24,
    ensures
        code128_read(widths_of(code)) == Some(code),
        code < 106 ==> ({
            let w = widths_of(code);
            &&& w.0 + w.1 + w.2 + w.3 + w.4 + w.5 == 11
            &&& (w.0 + w.2 + w.4) % 2 == 0
            &&& 1 <= w.0 <= 4 && 1 <= w.1 <= 4 && 1 <= w.2 <= 4 && 1 <= w.3 <= 4 && 1 <= w.4 <= 4
                && 1 <= w.5 <= 4
        }),
{
    if code == 12 {
    } else if code == 13 {
    } else if code == 14 {
    } else if code == 15 {
    } else if code == 16 {
    } else if code == 17 {
    } else if code == 18 {
    } else if code == 19 {
    } else if code == 20 {
    } else if code == 21 {
    } else if code == 22 {
    } else if code == 23 {
    }
}

proof fn lemma_code128_read_back_24(code: u8)
    requires
        24 <= code < 36,
    ensures
        code128_read(widths_of(code)) == Some(code),
        code < 106 ==> ({
            let w = widths_of(code);
            &&& w.0 + w.1 + w.2 + w.3 + w.4 + w.5 == 11
            &&& (w.0 + w.2 + w.4) % 2 == 0
            &&& 1 <= w.0 <= 4 && 1 <= w.1 <= 4 && 1 <= w.2 <= 4 && 1 <= w.3 <= 4 && 1 <= w.4 <= 4
                && 1 <= w.5 <= 4
        }),
{
    if code == 24 {
    } else if code == 25 {
    } else if code == 26 {
    } else if code == 27 {
    } else if code == 28 {
    } else if code == 29 {
    } else if code == 30 {
    } else if code == 31 {
    } else if code == 32 {
    } else if code == 33 {
    } else if code == 34 {
    } else if code == 35 {
    }
}

proof fn lemma_code128_read_back_36(code: u8)
    requires
        36 <= code < 48,
    ensures
        code128_read(widths_of(code)) == Some(code),
        code < 106 ==> ({
            let w = widths_of(code);
            &&& w.0 + w.1 + w.2 + w.3 + w.4 + w.5 == 11
            &&& (w.0 + w.2 + w.4) % 2 == 0
            &&& 1 <= w.0 <= 4 && 1 <= w.1 <= 4 && 1 <= w.2 <= 4 && 1 <= w.3 <= 4 && 1 <= w.4 <= 4
                && 1 <= w.5 <= 4
        }),
{
    if code == 36 {
    } else if code == 37 {
    } else if code == 38 {
    } else if code == 39 {
    } else if code == 40 {
    } else if code == 41 {
    } else if code == 42 {
    } else if code == 43 {
    } else if code == 44 {
    } else if code == 45 {
    } else if code == 46 {
    } else if code == 47 {
    }
}

proof fn lemma_code128_read_back_48(code: u8)
    requires
        48 <= code < 60,
    ensures
        code128_read(widths_of(code)) == Some(code),
        code < 106 ==> ({
            let w = widths_of(code);
            &&& w.0 + w.1 + w.2 + w.3 + w.4 + w.5 == 11
            &&& (w.0 + w.2 + w.4) % 2 == 0
            &&& 1 <= w.0 <= 4 && 1 <= w.1 <= 4 && 1 <= w.2 <= 4 && 1 <= w.3 <= 4 && 1 <= w.4 <= 4
                && 1 <= w.5 <= 4
        }),
{
    if code == 48 {
    } else if code == 49 {
    } else if code == 50 {
    } else if code == 51 {
    } else if code == 52 {
    } else if code == 53 {
    } else if code == 54 {
    } else if code == 55 {
    } else if code == 56 {
    } else if code == 57 {
    } else if code == 58 {
    } else if code == 59 {
    }
}

proof fn lemma_code128_read_back_60(code: u8)
    requires
        60 <= code < 72,
    ensures
        code128_read(widths_of(code)) == Some(code),
        code < 106 ==> ({
            let w = widths_of(code);
            &&& w.0 + w.1 + w.2 + w.3 + w.4 + w.5 == 11
            &&& (w.0 + w.2 + w.4) % 2 == 0
            &&& 1 <= w.0 <= 4 && 1 <= w.1 <= 4 && 1 <= w.2 <= 4 && 1 <= w.3 <= 4 && 1 <= w.4 <= 4
                && 1 <= w.5 <= 4
        }),
{
    if code == 60 {
    } else if code == 61 {
    } else if code == 62 {
    } else if code == 63 {
    } else if code == 64 {
    } else if code == 65 {
    } else if code == 66 {
    } else if code == 67 {
    } else if code == 68 {
    } else if code == 69 {
    } else if code == 70 {
    } else if code == 71 {
    }
}

proof fn lemma_code128_read_back_72(code: u8)
    requires
        72 <= code < 84,
    ensures
        code128_read(widths_of(code)) == Some(code),
        code < 106 ==> ({
            let w = widths_of(code);
            &&& w.0 + w.1 + w.2 + w.3 + w.4 + w.5 == 11
            &&& (w.0 + w.2 + w.4) % 2 == 0
            &&& 1 <= w.0 <= 4 && 1 <= w.1 <= 4 && 1 <= w.2 <= 4 && 1 <= w.3 <= 4 && 1 <= w.4 <= 4
                && 1 <= w.5 <= 4
        }),
{
    if code == 72 {
    } else if code == 73 {
    } else if code == 74 {
    } else if code == 75 {
    } else if code == 76 {
    } else if code == 77 {
    } else if code == 78 {
    } else if code == 79 {
    } else if code == 80 {
    } else if code == 81 {
    } else if code == 82 {
    } else if code == 83 {
    }
}

proof fn lemma_code128_read_back_84(code: u8)
    requires
        84 <= code < 96,
    ensures
        code128_read(widths_of(code)) == Some(code),
        code < 106 ==> ({
            let w = widths_of(code);
            &&& w.0 + w.1 + w.2 + w.3 + w.4 + w.5 == 11
            &&& (w.0 + w.2 + w.4) % 2 == 0
            &&& 1 <= w.0 <= 4 && 1 <= w.1 <= 4 && 1 <= w.2 <= 4 && 1 <= w.3 <= 4 && 1 <= w.4 <= 4
                && 1 <= w.5 <= 4
        }),
{
    if code == 84 {
    } else if code == 85 {
    } else if code == 86 {
    } else if code == 87 {
    } else if code == 88 {
    } else if code == 89 {
    } else if code == 90 {
    } else if code == 91 {
    } else if code == 92 {
    } else if code == 93 {
    } else if code == 94 {
    } else if code == 95 {
    }
}

proof fn lemma_code128_read_back_96(code: u8)
    requires
        96 <= code < 108,
    ensures
        code128_read(widths_of(code)) == Some(code),
        code < 106 ==> ({
            let w = widths_of(code);
            &&& w.0 + w.1 + w.2 + w.3 + w.4 + w.5 == 11
            &&& (w.0 + w.2 + w.4) % 2 == 0
            &&& 1 <= w.0 <= 4 && 1 <= w.1 <= 4 && 1 <= w.2 <= 4 && 1 <= w.3 <= 4 && 1 <= w.4 <= 4
                && 1 <= w.5 <= 4
        }),
{
    if code == 96 {
    } else if code == 97 {
    } else if code == 98 {
    } else if code == 99 {
    } else if code == 100 {
    } else if code == 101 {
    } else if code == 102 {
    } else if code == 103 {
    } else if code == 104 {
    } else if code == 105 {
    } else if code == 106 {
    } else if code == 107 {
    }
}

/// Every Code 128 data, shift, start and stop value is drawn with widths that
/// the standard table reads back as that value, so distinct values are drawn
/// differently; each data symbol is eleven modules wide with its three bars
/// summing to an even width.
pub proof fn lemma_code128_patterns_read_back(code: u8)
    requires
        code < 108,
    ensures
        code128_read(widths_of(code)) == Some(code),
        code < 106 ==> ({
            let w = widths_of(code);
            &&& w.0 + w.1 + w.2 + w.3 + w.4 + w.5 == 11
            &&& (w.0 + w.2 + w.4) % 2 == 0
            &&& 1 <= w.0 <= 4 && 1 <= w.1 <= 4 && 1 <= w.2 <= 4 && 1 <= w.3 <= 4 && 1 <= w.4 <= 4
                && 1 <= w.5 <= 4
        }),
{
    if code < 12 {
        lemma_code128_read_back_0(code);
    } else if code < 24 {
        lemma_code128_read_back_12(code);
    } else if code < 36 {
        lemma_code128_read_back_24(code);
    } else if code < 48 {
        lemma_code128_read_back_36(code);
    } else if code < 60 {
        lemma_code128_read_back_48(code);
    } else if code < 72 {
        lemma_code128_read_back_60(code);
    } else if code < 84 {
        lemma_code128_read_back_72(code);
    } else if code < 96 {
        lemma_code128_read_back_84(code);
    } else if code < 108 {
        lemma_code128_read_back_96(code);
    }
}

/// The character sets read as the standard has them: in Code B a printable
/// ASCII character is its code less 32 (space 0, `A` 33, DEL 95); in Code A
/// the characters from space to underscore are their code less 32 and the
/// control characters their code plus 64; in Code C two digits are the
/// number they spell (`12` is 12). Start values are 103, 104, 105 for Code A,
/// B, C; FNC1 is 102.
pub proof fn lemma_code128_values(c: char, d1: char, d2: char)
    ensures
        32 <= c <= '\u{7f}' ==> b_value(c) == c as int - 32,
        32 <= c <= '_' ==> a_value(c) == c as int - 32,
        c < ' ' ==> a_value(c) == c as int + 64,
        ('0' <= d1 <= '9' && '0' <= d2 <= '9') ==> pair_value(d1, d2) == 10 * (d1 as int - 48) + (
        d2 as int - 48),
        start_value(CodeSet::A) == 103 && start_value(CodeSet::B) == 104 && start_value(CodeSet::C)
            == 105,
        FNC1 == 102,
{
}

/// The check value weighs each symbol by its place, modulo 103: the start
/// value alone is its own check value, and a symbol appended at place `n`
/// (the start value being at place 0) adds `n` times its value. So three
/// symbols `v0 v1 v2` check to `v0 + v1 + 2 * v2`, modulo 103.
pub proof fn lemma_check_value_weights(codes: Seq<u8>, v: u8, v0: u8, v1: u8, v2: u8)
    requires
        codes.len() >= 1,
    ensures
        check_value(seq![v0]) == v0 as int % 103,
        check_value(codes.push(v)) == (check_value(codes) + codes.len() * v) % 103,
        check_value(seq![v0, v1, v2]) == (v0 + v1 + 2 * v2) % 103,
{
    assert(codes.push(v).drop_last() =~= codes);
    let w = weighted_sum(codes);
    let n = codes.len() as int;
    vstd::arithmetic::div_mod::lemma_add_mod_noop(w, n * v, 103);
    vstd::arithmetic::div_mod::lemma_mod_twice(n * v, 103);
    vstd::arithmetic::div_mod::lemma_add_mod_noop(w % 103, n * v, 103);
    vstd::arithmetic::div_mod::lemma_mod_twice(w, 103);
    let t = seq![v0, v1, v2];
    assert(t.drop_last() =~= seq![v0, v1]);
    assert(seq![v0, v1].drop_last() =~= seq![v0]);
    assert(weighted_sum(seq![v0]) == v0 as int);
    assert(weighted_sum(seq![v0, v1]) == v0 + v1);
    assert(weighted_sum(t) == v0 + v1 + 2 * v2);
}

/// The GS1 check digit completes the weighted digit sum (weights 3 and 1
/// from the right) to a multiple of ten.
pub proof fn lemma_gs1_check_completes(d: Seq<char>)
    ensures
        (gs1_sum(d, true) + (gs1_check(d) as int - '0' as int)) % 10 == 0,
{
    let s = gs1_sum(d, true);
    assert(0 <= (10 - s % 10) % 10 < 10);
}

/// The UCC (GS1 Mod-10) check digit completes the nineteen data digits,
/// weighed 3, 1, 3, ... from the last one back, to a multiple of ten.
pub proof fn lemma_gs1_check_weights(d: Seq<char>)
    requires
        d.len() == 19,
    ensures
        (3 * digit_val(d[0]) + digit_val(d[1]) + 3 * digit_val(d[2]) + digit_val(d[3]) + 3 * digit_val(d[4]) + digit_val(d[5]) + 3 * digit_val(d[6]) + digit_val(d[7]) + 3 * digit_val(d[8]) + digit_val(d[9]) + 3 * digit_val(d[10]) + digit_val(d[11]) + 3 * digit_val(d[12]) + digit_val(d[13]) + 3 * digit_val(d[14]) + digit_val(d[15]) + 3 * digit_val(d[16]) + digit_val(d[17]) + 3 * digit_val(d[18]) + (gs1_check(d) as int - '0' as int)) % 10 == 0,
{
    assert(d.take(19) =~= d);
    assert(d.take(0) =~= Seq::<char>::empty());
    assert(d.take(1).drop_last() =~= d.take(0));
    assert(d.take(1).last() == d[0]);
    assert(gs1_sum(d.take(1), true) == digit_val(d[0]) * 3 + gs1_sum(d.take(0), false));
    assert(d.take(2).drop_last() =~= d.take(1));
    assert(d.take(2).last() == d[1]);
    assert(gs1_sum(d.take(2), false) == digit_val(d[1]) * 1 + gs1_sum(d.take(1), true));
    assert(d.take(3).drop_last() =~= d.take(2));
    assert(d.take(3).last() == d[2]);
    assert(gs1_sum(d.take(3), true) == digit_val(d[2]) * 3 + gs1_sum(d.take(2), false));
    assert(d.take(4).drop_last() =~= d.take(3));
    assert(d.take(4).last() == d[3]);
    assert(gs1_sum(d.take(4), false) == digit_val(d[3]) * 1 + gs1_sum(d.take(3), true));
    assert(d.take(5).drop_last() =~= d.take(4));
    assert(d.take(5).last() == d[4]);
    assert(gs1_sum(d.take(5), true) == digit_val(d[4]) * 3 + gs1_sum(d.take(4), false));
    assert(d.take(6).drop_last() =~= d.take(5));
    assert(d.take(6).last() == d[5]);
    assert(gs1_sum(d.take(6), false) == digit_val(d[5]) * 1 + gs1_sum(d.take(5), true));
    assert(d.take(7).drop_last() =~= d.take(6));
    assert(d.take(7).last() == d[6]);
    assert(gs1_sum(d.take(7), true) == digit_val(d[6]) * 3 + gs1_sum(d.take(6), false));
    assert(d.take(8).drop_last() =~= d.take(7));
    assert(d.take(8).last() == d[7]);
    assert(gs1_sum(d.take(8), false) == digit_val(d[7]) * 1 + gs1_sum(d.take(7), true));
    assert(d.take(9).drop_last() =~= d.take(8));
    assert(d.take(9).last() == d[8]);
    assert(gs1_sum(d.take(9), true) == digit_val(d[8]) * 3 + gs1_sum(d.take(8), false));
    assert(d.take(10).drop_last() =~= d.take(9));
    assert(d.take(10).last() == d[9]);
    assert(gs1_sum(d.take(10), false) == digit_val(d[9]) * 1 + gs1_sum(d.take(9), true));
    assert(d.take(11).drop_last() =~= d.take(10));
    assert(d.take(11).last() == d[10]);
    assert(gs1_sum(d.take(11), true) == digit_val(d[10]) * 3 + gs1_sum(d.take(10), false));
    assert(d.take(12).drop_last() =~= d.take(11));
    assert(d.take(12).last() == d[11]);
    assert(gs1_sum(d.take(12), false) == digit_val(d[11]) * 1 + gs1_sum(d.take(11), true));
    assert(d.take(13).drop_last() =~= d.take(12));
    assert(d.take(13).last() == d[12]);
    assert(gs1_sum(d.take(13), true) == digit_val(d[12]) * 3 + gs1_sum(d.take(12), false));
    assert(d.take(14).drop_last() =~= d.take(13));
    assert(d.take(14).last() == d[13]);
    assert(gs1_sum(d.take(14), false) == digit_val(d[13]) * 1 + gs1_sum(d.take(13), true));
    assert(d.take(15).drop_last() =~= d.take(14));
    assert(d.take(15).last() == d[14]);
    assert(gs1_sum(d.take(15), true) == digit_val(d[14]) * 3 + gs1_sum(d.take(14), false));
    assert(d.take(16).drop_last() =~= d.take(15));
    assert(d.take(16).last() == d[15]);
    assert(gs1_sum(d.take(16), false) == digit_val(d[15]) * 1 + gs1_sum(d.take(15), true));
    assert(d.take(17).drop_last() =~= d.take(16));
    assert(d.take(17).last() == d[16]);
    assert(gs1_sum(d.take(17), true) == digit_val(d[16]) * 3 + gs1_sum(d.take(16), false));
    assert(d.take(18).drop_last() =~= d.take(17));
    assert(d.take(18).last() == d[17]);
    assert(gs1_sum(d.take(18), false) == digit_val(d[17]) * 1 + gs1_sum(d.take(17), true));
    assert(d.take(19).drop_last() =~= d.take(18));
    assert(d.take(19).last() == d[18]);
    assert(gs1_sum(d.take(19), true) == digit_val(d[18]) * 3 + gs1_sum(d.take(18), false));
    assert(gs1_sum(Seq::<char>::empty(), false) == 0);
    assert(gs1_sum(d, true) == 3 * digit_val(d[0]) + digit_val(d[1]) + 3 * digit_val(d[2]) + digit_val(d[3]) + 3 * digit_val(d[4]) + digit_val(d[5]) + 3 * digit_val(d[6]) + digit_val(d[7]) + 3 * digit_val(d[8]) + digit_val(d[9]) + 3 * digit_val(d[10]) + digit_val(d[11]) + 3 * digit_val(d[12]) + digit_val(d[13]) + 3 * digit_val(d[14]) + digit_val(d[15]) + 3 * digit_val(d[16]) + digit_val(d[17]) + 3 * digit_val(d[18]));
    lemma_gs1_check_completes(d);
}

} // verus!
