//! Code 39: each character is five bars and four spaces, three of them wide,
//! framed by `*` and separated by a narrow gap.
use vstd::prelude::*;
use crate::barcodes::bit_matrix::{BitMatrix, at_least_one};
use crate::text::{ascii_upper, chars_of, string_of, upper_char, upper_seq};

verus! {

/// The nine element widths of a Code 39 character (1 wide, 0 narrow), for the
/// characters Code 39 has.
pub open spec fn code39_pattern(c: char) -> Option<Seq<u8>> {
    if c == '0' {
        Some(seq![0u8, 0, 0, 1, 1, 0, 1, 0, 0])
    } else if c == '1' {
        Some(seq![1u8, 0, 0, 1, 0, 0, 0, 0, 1])
    } else if c == '2' {
        Some(seq![0u8, 0, 1, 1, 0, 0, 0, 0, 1])
    } else if c == '3' {
        Some(seq![1u8, 0, 1, 1, 0, 0, 0, 0, 0])
    } else if c == '4' {
        Some(seq![0u8, 0, 0, 1, 1, 0, 0, 0, 1])
    } else if c == '5' {
        Some(seq![1u8, 0, 0, 1, 1, 0, 0, 0, 0])
    } else if c == '6' {
        Some(seq![0u8, 0, 1, 1, 1, 0, 0, 0, 0])
    } else if c == '7' {
        Some(seq![0u8, 0, 0, 1, 0, 0, 1, 0, 1])
    } else if c == '8' {
        Some(seq![1u8, 0, 0, 1, 0, 0, 1, 0, 0])
    } else if c == '9' {
        Some(seq![0u8, 0, 1, 1, 0, 0, 1, 0, 0])
    } else if c == 'A' {
        Some(seq![1u8, 0, 0, 0, 0, 1, 0, 0, 1])
    } else if c == 'B' {
        Some(seq![0u8, 0, 1, 0, 0, 1, 0, 0, 1])
    } else if c == 'C' {
        Some(seq![1u8, 0, 1, 0, 0, 1, 0, 0, 0])
    } else if c == 'D' {
        Some(seq![0u8, 0, 0, 0, 1, 1, 0, 0, 1])
    } else if c == 'E' {
        Some(seq![1u8, 0, 0, 0, 1, 1, 0, 0, 0])
    } else if c == 'F' {
        Some(seq![0u8, 0, 1, 0, 1, 1, 0, 0, 0])
    } else if c == 'G' {
        Some(seq![0u8, 0, 0, 0, 0, 1, 1, 0, 1])
    } else if c == 'H' {
        Some(seq![1u8, 0, 0, 0, 0, 1, 1, 0, 0])
    } else if c == 'I' {
        Some(seq![0u8, 0, 1, 0, 0, 1, 1, 0, 0])
    } else if c == 'J' {
        Some(seq![0u8, 0, 0, 0, 1, 1, 1, 0, 0])
    } else if c == 'K' {
        Some(seq![1u8, 0, 0, 0, 0, 0, 0, 1, 1])
    } else if c == 'L' {
        Some(seq![0u8, 0, 1, 0, 0, 0, 0, 1, 1])
    } else if c == 'M' {
        Some(seq![1u8, 0, 1, 0, 0, 0, 0, 1, 0])
    } else if c == 'N' {
        Some(seq![0u8, 0, 0, 0, 1, 0, 0, 1, 1])
    } else if c == 'O' {
        Some(seq![1u8, 0, 0, 0, 1, 0, 0, 1, 0])
    } else if c == 'P' {
        Some(seq![0u8, 0, 1, 0, 1, 0, 0, 1, 0])
    } else if c == 'Q' {
        Some(seq![0u8, 0, 0, 0, 0, 0, 1, 1, 1])
    } else if c == 'R' {
        Some(seq![1u8, 0, 0, 0, 0, 0, 1, 1, 0])
    } else if c == 'S' {
        Some(seq![0u8, 0, 1, 0, 0, 0, 1, 1, 0])
    } else if c == 'T' {
        Some(seq![0u8, 0, 0, 0, 1, 0, 1, 1, 0])
    } else if c == 'U' {
        Some(seq![1u8, 1, 0, 0, 0, 0, 0, 0, 1])
    } else if c == 'V' {
        Some(seq![0u8, 1, 1, 0, 0, 0, 0, 0, 1])
    } else if c == 'W' {
        Some(seq![1u8, 1, 1, 0, 0, 0, 0, 0, 0])
    } else if c == 'X' {
        Some(seq![0u8, 1, 0, 0, 1, 0, 0, 0, 1])
    } else if c == 'Y' {
        Some(seq![1u8, 1, 0, 0, 1, 0, 0, 0, 0])
    } else if c == 'Z' {
        Some(seq![0u8, 1, 1, 0, 1, 0, 0, 0, 0])
    } else if c == '-' {
        Some(seq![0u8, 1, 0, 0, 0, 0, 1, 0, 1])
    } else if c == '.' {
        Some(seq![1u8, 1, 0, 0, 0, 0, 1, 0, 0])
    } else if c == ' ' {
        Some(seq![0u8, 1, 1, 0, 0, 0, 1, 0, 0])
    } else if c == '$' {
        Some(seq![0u8, 1, 0, 1, 0, 1, 0, 0, 0])
    } else if c == '/' {
        Some(seq![0u8, 1, 0, 1, 0, 0, 0, 1, 0])
    } else if c == '+' {
        Some(seq![0u8, 1, 0, 0, 0, 1, 0, 1, 0])
    } else if c == '%' {
        Some(seq![0u8, 0, 0, 1, 0, 1, 0, 1, 0])
    } else if c == '*' {
        Some(seq![0u8, 1, 0, 0, 1, 0, 1, 0, 0])
    } else {
        None
    }
}

/// The nine elements as a number, the first one the highest bit (wide = 1).
pub open spec fn code39_element_number(p: Seq<u8>) -> int {
    256 * p[0] + 128 * p[1] + 64 * p[2] + 32 * p[3] + 16 * p[4] + 8 * p[5] + 4 * p[6] + 2 * p[7]
        + p[8]
}

/// The character that nine Code 39 elements stand for in the standard table,
/// if any.
pub open spec fn code39_read(p: Seq<u8>) -> Option<char> {
    let n = code39_element_number(p);
    if n == 52 {
        Some('0')
    } else if n == 289 {
        Some('1')
    } else if n == 97 {
        Some('2')
    } else if n == 352 {
        Some('3')
    } else if n == 49 {
        Some('4')
    } else if n == 304 {
        Some('5')
    } else if n == 112 {
        Some('6')
    } else if n == 37 {
        Some('7')
    } else if n == 292 {
        Some('8')
    } else if n == 100 {
        Some('9')
    } else if n == 265 {
        Some('A')
    } else if n == 73 {
        Some('B')
    } else if n == 328 {
        Some('C')
    } else if n == 25 {
        Some('D')
    } else if n == 280 {
        Some('E')
    } else if n == 88 {
        Some('F')
    } else if n == 13 {
        Some('G')
    } else if n == 268 {
        Some('H')
    } else if n == 76 {
        Some('I')
    } else if n == 28 {
        Some('J')
    } else if n == 259 {
        Some('K')
    } else if n == 67 {
        Some('L')
    } else if n == 322 {
        Some('M')
    } else if n == 19 {
        Some('N')
    } else if n == 274 {
        Some('O')
    } else if n == 82 {
        Some('P')
    } else if n == 7 {
        Some('Q')
    } else if n == 262 {
        Some('R')
    } else if n == 70 {
        Some('S')
    } else if n == 22 {
        Some('T')
    } else if n == 385 {
        Some('U')
    } else if n == 193 {
        Some('V')
    } else if n == 448 {
        Some('W')
    } else if n == 145 {
        Some('X')
    } else if n == 400 {
        Some('Y')
    } else if n == 208 {
        Some('Z')
    } else if n == 133 {
        Some('-')
    } else if n == 388 {
        Some('.')
    } else if n == 196 {
        Some(' ')
    } else if n == 168 {
        Some('$')
    } else if n == 162 {
        Some('/')
    } else if n == 138 {
        Some('+')
    } else if n == 42 {
        Some('%')
    } else if n == 148 {
        Some('*')
    } else {
        None
    }
}

/// Every Code 39 character is drawn as nine elements of which exactly three
/// are wide, and reading them back with the standard table gives the
/// character again.
pub proof fn lemma_code39_patterns_read_back(c: char)
    requires
        code39_pattern(c) is Some,
    ensures
        ({
            let p = code39_pattern(c)->0;
            &&& p.len() == 9
            &&& p[0] + p[1] + p[2] + p[3] + p[4] + p[5] + p[6] + p[7] + p[8] == 3
            &&& code39_read(p) == Some(c)
        }),
{
}

/// Distinct characters are drawn differently, so a scanner reads back the
/// text that was drawn.
pub proof fn lemma_code39_patterns_distinct(c1: char, c2: char)
    requires
        code39_pattern(c1) is Some,
        code39_pattern(c2) is Some,
        c1 != c2,
    ensures
        code39_pattern(c1) != code39_pattern(c2),
{
    lemma_code39_patterns_read_back(c1);
    lemma_code39_patterns_read_back(c2);
}

fn code39_pattern_of(c: char) -> (r: Option<Vec<u8>>)
    ensures
        match r {
            Some(v) => code39_pattern(c) == Some(v@),
            None => code39_pattern(c) is None,
        },
{
    if c == '0' {
        let v: Vec<u8> = vec![0u8, 0, 0, 1, 1, 0, 1, 0, 0];
        assert(v@ =~= seq![0u8, 0, 0, 1, 1, 0, 1, 0, 0]);
        Some(v)
    } else if c == '1' {
        let v: Vec<u8> = vec![1u8, 0, 0, 1, 0, 0, 0, 0, 1];
        assert(v@ =~= seq![1u8, 0, 0, 1, 0, 0, 0, 0, 1]);
        Some(v)
    } else if c == '2' {
        let v: Vec<u8> = vec![0u8, 0, 1, 1, 0, 0, 0, 0, 1];
        assert(v@ =~= seq![0u8, 0, 1, 1, 0, 0, 0, 0, 1]);
        Some(v)
    } else if c == '3' {
        let v: Vec<u8> = vec![1u8, 0, 1, 1, 0, 0, 0, 0, 0];
        assert(v@ =~= seq![1u8, 0, 1, 1, 0, 0, 0, 0, 0]);
        Some(v)
    } else if c == '4' {
        let v: Vec<u8> = vec![0u8, 0, 0, 1, 1, 0, 0, 0, 1];
        assert(v@ =~= seq![0u8, 0, 0, 1, 1, 0, 0, 0, 1]);
        Some(v)
    } else if c == '5' {
        let v: Vec<u8> = vec![1u8, 0, 0, 1, 1, 0, 0, 0, 0];
        assert(v@ =~= seq![1u8, 0, 0, 1, 1, 0, 0, 0, 0]);
        Some(v)
    } else if c == '6' {
        let v: Vec<u8> = vec![0u8, 0, 1, 1, 1, 0, 0, 0, 0];
        assert(v@ =~= seq![0u8, 0, 1, 1, 1, 0, 0, 0, 0]);
        Some(v)
    } else if c == '7' {
        let v: Vec<u8> = vec![0u8, 0, 0, 1, 0, 0, 1, 0, 1];
        assert(v@ =~= seq![0u8, 0, 0, 1, 0, 0, 1, 0, 1]);
        Some(v)
    } else if c == '8' {
        let v: Vec<u8> = vec![1u8, 0, 0, 1, 0, 0, 1, 0, 0];
        assert(v@ =~= seq![1u8, 0, 0, 1, 0, 0, 1, 0, 0]);
        Some(v)
    } else if c == '9' {
        let v: Vec<u8> = vec![0u8, 0, 1, 1, 0, 0, 1, 0, 0];
        assert(v@ =~= seq![0u8, 0, 1, 1, 0, 0, 1, 0, 0]);
        Some(v)
    } else if c == 'A' {
        let v: Vec<u8> = vec![1u8, 0, 0, 0, 0, 1, 0, 0, 1];
        assert(v@ =~= seq![1u8, 0, 0, 0, 0, 1, 0, 0, 1]);
        Some(v)
    } else if c == 'B' {
        let v: Vec<u8> = vec![0u8, 0, 1, 0, 0, 1, 0, 0, 1];
        assert(v@ =~= seq![0u8, 0, 1, 0, 0, 1, 0, 0, 1]);
        Some(v)
    } else if c == 'C' {
        let v: Vec<u8> = vec![1u8, 0, 1, 0, 0, 1, 0, 0, 0];
        assert(v@ =~= seq![1u8, 0, 1, 0, 0, 1, 0, 0, 0]);
        Some(v)
    } else if c == 'D' {
        let v: Vec<u8> = vec![0u8, 0, 0, 0, 1, 1, 0, 0, 1];
        assert(v@ =~= seq![0u8, 0, 0, 0, 1, 1, 0, 0, 1]);
        Some(v)
    } else if c == 'E' {
        let v: Vec<u8> = vec![1u8, 0, 0, 0, 1, 1, 0, 0, 0];
        assert(v@ =~= seq![1u8, 0, 0, 0, 1, 1, 0, 0, 0]);
        Some(v)
    } else if c == 'F' {
        let v: Vec<u8> = vec![0u8, 0, 1, 0, 1, 1, 0, 0, 0];
        assert(v@ =~= seq![0u8, 0, 1, 0, 1, 1, 0, 0, 0]);
        Some(v)
    } else if c == 'G' {
        let v: Vec<u8> = vec![0u8, 0, 0, 0, 0, 1, 1, 0, 1];
        assert(v@ =~= seq![0u8, 0, 0, 0, 0, 1, 1, 0, 1]);
        Some(v)
    } else if c == 'H' {
        let v: Vec<u8> = vec![1u8, 0, 0, 0, 0, 1, 1, 0, 0];
        assert(v@ =~= seq![1u8, 0, 0, 0, 0, 1, 1, 0, 0]);
        Some(v)
    } else if c == 'I' {
        let v: Vec<u8> = vec![0u8, 0, 1, 0, 0, 1, 1, 0, 0];
        assert(v@ =~= seq![0u8, 0, 1, 0, 0, 1, 1, 0, 0]);
        Some(v)
    } else if c == 'J' {
        let v: Vec<u8> = vec![0u8, 0, 0, 0, 1, 1, 1, 0, 0];
        assert(v@ =~= seq![0u8, 0, 0, 0, 1, 1, 1, 0, 0]);
        Some(v)
    } else if c == 'K' {
        let v: Vec<u8> = vec![1u8, 0, 0, 0, 0, 0, 0, 1, 1];
        assert(v@ =~= seq![1u8, 0, 0, 0, 0, 0, 0, 1, 1]);
        Some(v)
    } else if c == 'L' {
        let v: Vec<u8> = vec![0u8, 0, 1, 0, 0, 0, 0, 1, 1];
        assert(v@ =~= seq![0u8, 0, 1, 0, 0, 0, 0, 1, 1]);
        Some(v)
    } else if c == 'M' {
        let v: Vec<u8> = vec![1u8, 0, 1, 0, 0, 0, 0, 1, 0];
        assert(v@ =~= seq![1u8, 0, 1, 0, 0, 0, 0, 1, 0]);
        Some(v)
    } else if c == 'N' {
        let v: Vec<u8> = vec![0u8, 0, 0, 0, 1, 0, 0, 1, 1];
        assert(v@ =~= seq![0u8, 0, 0, 0, 1, 0, 0, 1, 1]);
        Some(v)
    } else if c == 'O' {
        let v: Vec<u8> = vec![1u8, 0, 0, 0, 1, 0, 0, 1, 0];
        assert(v@ =~= seq![1u8, 0, 0, 0, 1, 0, 0, 1, 0]);
        Some(v)
    } else if c == 'P' {
        let v: Vec<u8> = vec![0u8, 0, 1, 0, 1, 0, 0, 1, 0];
        assert(v@ =~= seq![0u8, 0, 1, 0, 1, 0, 0, 1, 0]);
        Some(v)
    } else if c == 'Q' {
        let v: Vec<u8> = vec![0u8, 0, 0, 0, 0, 0, 1, 1, 1];
        assert(v@ =~= seq![0u8, 0, 0, 0, 0, 0, 1, 1, 1]);
        Some(v)
    } else if c == 'R' {
        let v: Vec<u8> = vec![1u8, 0, 0, 0, 0, 0, 1, 1, 0];
        assert(v@ =~= seq![1u8, 0, 0, 0, 0, 0, 1, 1, 0]);
        Some(v)
    } else if c == 'S' {
        let v: Vec<u8> = vec![0u8, 0, 1, 0, 0, 0, 1, 1, 0];
        assert(v@ =~= seq![0u8, 0, 1, 0, 0, 0, 1, 1, 0]);
        Some(v)
    } else if c == 'T' {
        let v: Vec<u8> = vec![0u8, 0, 0, 0, 1, 0, 1, 1, 0];
        assert(v@ =~= seq![0u8, 0, 0, 0, 1, 0, 1, 1, 0]);
        Some(v)
    } else if c == 'U' {
        let v: Vec<u8> = vec![1u8, 1, 0, 0, 0, 0, 0, 0, 1];
        assert(v@ =~= seq![1u8, 1, 0, 0, 0, 0, 0, 0, 1]);
        Some(v)
    } else if c == 'V' {
        let v: Vec<u8> = vec![0u8, 1, 1, 0, 0, 0, 0, 0, 1];
        assert(v@ =~= seq![0u8, 1, 1, 0, 0, 0, 0, 0, 1]);
        Some(v)
    } else if c == 'W' {
        let v: Vec<u8> = vec![1u8, 1, 1, 0, 0, 0, 0, 0, 0];
        assert(v@ =~= seq![1u8, 1, 1, 0, 0, 0, 0, 0, 0]);
        Some(v)
    } else if c == 'X' {
        let v: Vec<u8> = vec![0u8, 1, 0, 0, 1, 0, 0, 0, 1];
        assert(v@ =~= seq![0u8, 1, 0, 0, 1, 0, 0, 0, 1]);
        Some(v)
    } else if c == 'Y' {
        let v: Vec<u8> = vec![1u8, 1, 0, 0, 1, 0, 0, 0, 0];
        assert(v@ =~= seq![1u8, 1, 0, 0, 1, 0, 0, 0, 0]);
        Some(v)
    } else if c == 'Z' {
        let v: Vec<u8> = vec![0u8, 1, 1, 0, 1, 0, 0, 0, 0];
        assert(v@ =~= seq![0u8, 1, 1, 0, 1, 0, 0, 0, 0]);
        Some(v)
    } else if c == '-' {
        let v: Vec<u8> = vec![0u8, 1, 0, 0, 0, 0, 1, 0, 1];
        assert(v@ =~= seq![0u8, 1, 0, 0, 0, 0, 1, 0, 1]);
        Some(v)
    } else if c == '.' {
        let v: Vec<u8> = vec![1u8, 1, 0, 0, 0, 0, 1, 0, 0];
        assert(v@ =~= seq![1u8, 1, 0, 0, 0, 0, 1, 0, 0]);
        Some(v)
    } else if c == ' ' {
        let v: Vec<u8> = vec![0u8, 1, 1, 0, 0, 0, 1, 0, 0];
        assert(v@ =~= seq![0u8, 1, 1, 0, 0, 0, 1, 0, 0]);
        Some(v)
    } else if c == '$' {
        let v: Vec<u8> = vec![0u8, 1, 0, 1, 0, 1, 0, 0, 0];
        assert(v@ =~= seq![0u8, 1, 0, 1, 0, 1, 0, 0, 0]);
        Some(v)
    } else if c == '/' {
        let v: Vec<u8> = vec![0u8, 1, 0, 1, 0, 0, 0, 1, 0];
        assert(v@ =~= seq![0u8, 1, 0, 1, 0, 0, 0, 1, 0]);
        Some(v)
    } else if c == '+' {
        let v: Vec<u8> = vec![0u8, 1, 0, 0, 0, 1, 0, 1, 0];
        assert(v@ =~= seq![0u8, 1, 0, 0, 0, 1, 0, 1, 0]);
        Some(v)
    } else if c == '%' {
        let v: Vec<u8> = vec![0u8, 0, 0, 1, 0, 1, 0, 1, 0];
        assert(v@ =~= seq![0u8, 0, 0, 1, 0, 1, 0, 1, 0]);
        Some(v)
    } else if c == '*' {
        let v: Vec<u8> = vec![0u8, 1, 0, 0, 1, 0, 1, 0, 0];
        assert(v@ =~= seq![0u8, 1, 0, 0, 1, 0, 1, 0, 0]);
        Some(v)
    } else {
        None
    }
}

/// `w` modules, all bars or all spaces.
pub open spec fn run(w: int, bar: bool) -> Seq<bool> {
    Seq::new(w as nat, |k: int| bar)
}

/// The modules of a pattern of element widths (1 wide, 0 narrow), bars first.
pub open spec fn element_modules(ws: Seq<u8>, narrow: int, wide: int) -> Seq<bool>
    decreases ws.len(),
{
    if ws.len() == 0 {
        seq![]
    } else {
        element_modules(ws.drop_last(), narrow, wide) + run(
            if ws.last() == 1 {
                wide
            } else {
                narrow
            },
            (ws.len() - 1) % 2 == 0,
        )
    }
}

/// The text Code 39 draws: the data in upper case between `*` characters.
pub open spec fn code39_text(content: Seq<char>) -> Seq<char> {
    seq!['*'] + upper_seq(content) + seq!['*']
}

/// The modules of a Code 39 text whose characters all have patterns.
pub open spec fn code39_row(t: Seq<char>, narrow: int, wide: int) -> Seq<bool>
    decreases t.len(),
{
    if t.len() == 0 {
        seq![]
    } else {
        code39_row(t.drop_last(), narrow, wide) + (if t.len() > 1 {
            run(narrow, false)
        } else {
            seq![]
        }) + element_modules(code39_pattern(t.last()).unwrap(), narrow, wide)
    }
}

/// The message for a character Code 39 does not have.
pub open spec fn code39_error(c: char) -> Seq<char> {
    "Code 39: invalid character '"@ + seq![c] + "'"@
}

fn push_run(v: &mut Vec<bool>, w: usize, bar: bool)
    ensures
        final(v)@ == old(v)@ + run(w as int, bar),
{
    let mut k: usize = 0;
    while k < w
        invariant
            k <= w,
            v@ == old(v)@ + run(k as int, bar),
        decreases w - k,
    {
        v.push(bar);
        proof {
            assert(v@ =~= old(v)@ + run(k as int + 1, bar));
        }
        k += 1;
    }
}

fn push_elements(v: &mut Vec<bool>, ws: &Vec<u8>, narrow: usize, wide: usize)
    ensures
        final(v)@ == old(v)@ + element_modules(ws@, narrow as int, wide as int),
{
    let mut j: usize = 0;
    while j < ws.len()
        invariant
            j <= ws@.len(),
            v@ == old(v)@ + element_modules(ws@.take(j as int), narrow as int, wide as int),
        decreases ws@.len() - j,
    {
        let w = if ws[j] == 1 {
            wide
        } else {
            narrow
        };
        let ghost v0 = v@;
        push_run(v, w, j % 2 == 0);
        proof {
            assert(ws@.take(j + 1).drop_last() =~= ws@.take(j as int));
            assert(v@ =~= old(v)@ + element_modules(ws@.take(j + 1), narrow as int, wide as int));
        }
        j += 1;
    }
    proof {
        assert(ws@.take(ws@.len() as int) =~= ws@);
    }
}

/// Narrow elements are `narrow_bar` modules wide, at least 1.
pub open spec fn code39_narrow(narrow_bar: i32) -> int {
    if narrow_bar >= 1 {
        narrow_bar as int
    } else {
        1
    }
}

/// Wide elements are `narrow_bar * wide_bar_ratio` modules wide, at least 2.
pub open spec fn code39_wide(narrow_bar: i32, wide_bar_ratio: i32) -> int {
    if narrow_bar * wide_bar_ratio >= 2 {
        narrow_bar * wide_bar_ratio
    } else {
        2
    }
}

/// Every character of `t` has a pattern.
pub open spec fn code39_known(t: Seq<char>) -> bool {
    forall|i: int| 0 <= i < t.len() ==> #[trigger] code39_pattern(t[i]) is Some
}

/// `e` is the error for the first character of `t` without a pattern.
pub open spec fn code39_first_error(t: Seq<char>, e: Seq<char>) -> bool {
    exists|i: int|
        0 <= i < t.len() && #[trigger] code39_pattern(t[i]) is None && (forall|j: int|
            0 <= j < i ==> code39_pattern(t[j]) is Some) && e == code39_error(t[i])
}

/// The module row of Code 39 for `content` (upper-cased, framed by `*`), with
/// narrow elements of `narrow_bar` modules (at least 1) and wide ones of
/// `narrow_bar * wide_bar_ratio` (at least 2). The first character without a
/// pattern is an error.
pub fn pattern(content: &str, wide_bar_ratio: i32, narrow_bar: i32) -> (r: Result<BitMatrix, String>)
    requires
        i32::MIN <= narrow_bar * wide_bar_ratio <= i32::MAX,
    ensures
        ({
            let t = code39_text(content@);
            let narrow = code39_narrow(narrow_bar);
            let wide = code39_wide(narrow_bar, wide_bar_ratio);
            match r {
                Ok(m) => code39_known(t) && m.wf() && m.spec_height() == 1 && m.cells() == code39_row(
                    t,
                    narrow,
                    wide,
                ) && m.spec_width() == m.cells().len(),
                Err(e) => code39_first_error(t, e@),
            }
        }),
{
    let narrow: usize = if narrow_bar >= 1 {
        narrow_bar as usize
    } else {
        1
    };
    let prod = narrow_bar * wide_bar_ratio;
    let wide: usize = if prod >= 2 {
        prod as usize
    } else {
        2
    };
    let src = chars_of(content);
    let mut t: Vec<char> = Vec::new();
    t.push('*');
    let mut k: usize = 0;
    while k < src.len()
        invariant
            k <= src@.len(),
            src@ == content@,
            t@ == seq!['*'] + upper_seq(content@.take(k as int)),
        decreases src@.len() - k,
    {
        t.push(upper_char(src[k]));
        proof {
            assert(upper_seq(content@.take(k + 1)) =~= upper_seq(content@.take(k as int)).push(
                ascii_upper(content@[k as int]),
            ));
            assert(t@ =~= seq!['*'] + upper_seq(content@.take(k + 1)));
        }
        k += 1;
    }
    t.push('*');
    proof {
        assert(content@.take(src@.len() as int) =~= content@);
        assert(t@ =~= code39_text(content@));
    }
    let mut row: Vec<bool> = Vec::new();
    let mut ci: usize = 0;
    while ci < t.len()
        invariant
            ci <= t@.len(),
            t@ == code39_text(content@),
            forall|i: int| 0 <= i < ci ==> #[trigger] code39_pattern(t@[i]) is Some,
            row@ == code39_row(t@.take(ci as int), narrow as int, wide as int),
        decreases t@.len() - ci,
    {
        let ch = t[ci];
        match code39_pattern_of(ch) {
            None => {
                let mut msg = "Code 39: invalid character '".to_owned();
                let mut one = String::new();
                crate::text::push_char(&mut one, ch);
                msg.append(one.as_str());
                msg.append("'");
                proof {
                    assert(one@ =~= seq![ch]);
                }
                return Err(msg);
            },
            Some(ws) => {
                if ci > 0 {
                    push_run(&mut row, narrow, false);
                }
                push_elements(&mut row, &ws, narrow, wide);
                proof {
                    let tt = t@.take(ci + 1);
                    assert(tt.drop_last() =~= t@.take(ci as int));
                    assert(tt.last() == ch);
                    assert(row@ =~= code39_row(tt, narrow as int, wide as int));
                }
            },
        }
        ci += 1;
    }
    proof {
        assert(t@.take(t@.len() as int) =~= t@);
    }
    Ok(BitMatrix::from_row(row))
}


/// Code 39 for `content` drawn one pixel per module and `height` pixels tall
/// (at least 1); see [`pattern`].
pub fn encode(content: &str, height: i32, wide_bar_ratio: i32, narrow_bar: i32) -> (r: Result<
    BitMatrix,
    String,
>)
    requires
        i32::MIN <= narrow_bar * wide_bar_ratio <= i32::MAX,
        code39_known(code39_text(content@)) ==> code39_row(
            code39_text(content@),
            code39_narrow(narrow_bar),
            code39_wide(narrow_bar, wide_bar_ratio),
        ).len() * at_least_one(height) <= usize::MAX,
    ensures
        ({
            let t = code39_text(content@);
            match r {
                Ok(img) => code39_known(t) && img.is_bars(
                    code39_row(t, code39_narrow(narrow_bar), code39_wide(narrow_bar, wide_bar_ratio)),
                    1,
                    at_least_one(height),
                ),
                Err(e) => code39_first_error(t, e@),
            }
        }),
{
    let bm = pattern(content, wide_bar_ratio, narrow_bar)?;
    let h: usize = if height > 1 { height as usize } else { 1 };
    proof {
        assert(bm.spec_width() * 1 <= usize::MAX && bm.spec_width() * 1 * h <= usize::MAX)
            by (nonlinear_arith)
            requires
                bm.spec_width() * h <= usize::MAX,
                h >= 1,
        ;
    }
    Ok(bm.to_1d_image(1, h))
}

/// The text printed with a Code 39 symbol: the field data between the `*`
/// start and stop characters.
pub fn interpretation_text(content: &str) -> (r: String)
    ensures
        r@ == seq!['*'] + content@ + seq!['*'],
{
    let c = chars_of(content);
    let mut v: Vec<char> = Vec::new();
    v.push('*');
    let mut i: usize = 0;
    while i < c.len()
        invariant
            i <= c.len(),
            v@ == seq!['*'] + c@.take(i as int),
        decreases c.len() - i,
    {
        v.push(c[i]);
        assert(c@.take(i + 1) == c@.take(i as int).push(c@[i as int]));
        i += 1;
    }
    v.push('*');
    assert(c@.take(c.len() as int) == c@);
    string_of(&v)
}

} // verus!
