//! Hex escapes in field data and the encodings of graphic field data.
use std::io::Read;
use vstd::prelude::*;
use vstd::string::StringSliceAdditionalSpecFns;
use vstd::string::StringExecFns;
use vstd::utf8::{decode_utf8, encode_utf8, valid_utf8};
use crate::text::{chars_of, copy_bytes, is_ws, push_char, string_of, trim, trim_chars, trim_end, trim_start};

verus! {

/// An ASCII hex digit byte.
pub open spec fn is_hex_digit(b: u8) -> bool {
    ('0' as u8 <= b && b <= '9' as u8) || ('a' as u8 <= b && b <= 'f' as u8) || ('A' as u8 <= b
        && b <= 'F' as u8)
}

/// The value of a hex digit byte.
pub open spec fn hex_digit_value(b: u8) -> int {
    if '0' as u8 <= b && b <= '9' as u8 {
        b - '0' as u8
    } else if 'a' as u8 <= b && b <= 'f' as u8 {
        b - 'a' as u8 + 10
    } else {
        b - 'A' as u8 + 10
    }
}

/// Every byte of `b` is a hex digit.
pub open spec fn all_hex(b: Seq<u8>) -> bool {
    forall|i: int| 0 <= i < b.len() ==> #[trigger] is_hex_digit(b[i])
}

/// The index of the first byte of `b` that is not a hex digit.
pub open spec fn first_bad_hex(b: Seq<u8>) -> int {
    choose|i: int|
        0 <= i < b.len() && !is_hex_digit(b[i]) && forall|j: int|
            0 <= j < i ==> #[trigger] is_hex_digit(b[j])
}

/// The bytes that hex digit pairs spell; a last unpaired digit is the high half.
pub open spec fn hex_pairs(b: Seq<u8>) -> Seq<u8> {
    Seq::new(
        ((b.len() + 1) / 2) as nat,
        |k: int|
            (16 * hex_digit_value(b[2 * k]) + if 2 * k + 1 < b.len() {
                hex_digit_value(b[2 * k + 1])
            } else {
                0
            }) as u8,
    )
}

/// Hex digits decoded pairwise, or the message that names the first bad byte.
pub open spec fn hex_even_result(b: Seq<u8>) -> Result<Seq<u8>, Seq<char>> {
    if all_hex(b) {
        Ok(hex_pairs(b))
    } else {
        Err("invalid hex char: "@.push(b[first_bad_hex(b)] as char))
    }
}

/// The bytes that hex text is decoded from: the UTF-8 bytes of the trimmed text,
/// with a `0` added when their number is odd.
pub open spec fn hex_text_bytes(s: Seq<char>) -> Seq<u8> {
    let b = encode_utf8(trim(s));
    if b.len() % 2 == 1 {
        b.push('0' as u8)
    } else {
        b
    }
}

/// What decoding the hex text `s` gives.
pub open spec fn hex_text_result(s: Seq<char>) -> Result<Seq<u8>, Seq<char>> {
    hex_even_result(hex_text_bytes(s))
}

pub proof fn lemma_first_bad_hex(b: Seq<u8>, i: int)
    requires
        0 <= i < b.len(),
        !is_hex_digit(b[i]),
        forall|j: int| 0 <= j < i ==> is_hex_digit(b[j]),
    ensures
        first_bad_hex(b) == i,
{
    let k = first_bad_hex(b);
    assert(0 <= k < b.len() && !is_hex_digit(b[k]) && forall|j: int|
        0 <= j < k ==> #[trigger] is_hex_digit(b[j]));
    if k < i {
        assert(is_hex_digit(b[k]));
    } else if k > i {
        assert(is_hex_digit(b[i]));
    }
}

/// Hex text decodes exactly when its trimmed text holds nothing but hex
/// digits, and then into half as many bytes as that text has, rounded up.
pub proof fn lemma_hex_decodes_iff(s: Seq<char>)
    ensures
        hex_text_result(s) is Ok <==> all_hex(encode_utf8(trim(s))),
        hex_text_result(s) matches Ok(v) ==> v.len() == (encode_utf8(trim(s)).len() + 1) / 2,
{
    let b = encode_utf8(trim(s));
    let hb = hex_text_bytes(s);
    if b.len() % 2 == 1 {
        assert(hb == b.push('0' as u8));
        if all_hex(b) {
            assert forall|i: int| 0 <= i < hb.len() implies #[trigger] is_hex_digit(hb[i]) by {
                if i < b.len() {
                    assert(hb[i] == b[i]);
                }
            }
        }
        if all_hex(hb) {
            assert forall|i: int| 0 <= i < b.len() implies #[trigger] is_hex_digit(b[i]) by {
                assert(hb[i] == b[i]);
            }
        }
    }
}

/// The hex digit for `n` (below sixteen), in upper or lower case.
pub open spec fn hex_char(n: int, upper: bool) -> char {
    if n < 10 {
        ('0' as int + n) as char
    } else if upper {
        ('A' as int + n - 10) as char
    } else {
        ('a' as int + n - 10) as char
    }
}

/// `bytes` written as two hex digits each, high half first, digit `i` in
/// upper case where `upper[i]` holds (letters only; a shorter `upper` leaves
/// the rest in lower case).
pub open spec fn hex_spelling(bytes: Seq<u8>, upper: Seq<bool>) -> Seq<char> {
    Seq::new(
        2 * bytes.len(),
        |i: int|
            if i % 2 == 0 {
                hex_char(bytes[i / 2] as int / 16, i < upper.len() && upper[i])
            } else {
                hex_char(bytes[i / 2] as int % 16, i < upper.len() && upper[i])
            },
    )
}

proof fn lemma_trim_start_ws(w: Seq<char>, t: Seq<char>)
    requires
        forall|i: int| 0 <= i < w.len() ==> is_ws(#[trigger] w[i]),
    ensures
        trim_start(w + t) == trim_start(t),
    decreases w.len(),
{
    if w.len() > 0 {
        assert((w + t)[0] == w[0]);
        assert((w + t).drop_first() == w.drop_first() + t);
        assert forall|i: int| 0 <= i < w.drop_first().len() implies is_ws(
            #[trigger] w.drop_first()[i],
        ) by {
            assert(w.drop_first()[i] == w[i + 1]);
        }
        lemma_trim_start_ws(w.drop_first(), t);
    } else {
        assert(w + t == t);
    }
}

proof fn lemma_trim_end_ws(t: Seq<char>, w: Seq<char>)
    requires
        forall|i: int| 0 <= i < w.len() ==> is_ws(#[trigger] w[i]),
    ensures
        trim_end(t + w) == trim_end(t),
    decreases w.len(),
{
    if w.len() > 0 {
        assert((t + w).last() == w.last());
        assert((t + w).drop_last() == t + w.drop_last());
        assert forall|i: int| 0 <= i < w.drop_last().len() implies is_ws(
            #[trigger] w.drop_last()[i],
        ) by {
            assert(w.drop_last()[i] == w[i]);
        }
        lemma_trim_end_ws(t, w.drop_last());
    } else {
        assert(t + w == t);
    }
}

proof fn lemma_hex_char(n: int, upper: bool)
    requires
        0 <= n < 16,
    ensures
        !is_ws(hex_char(n, upper)),
        (hex_char(n, upper) as u8) as char == hex_char(n, upper),
        '\0' <= hex_char(n, upper) <= '\u{7f}',
        is_hex_digit(hex_char(n, upper) as u8),
        hex_digit_value(hex_char(n, upper) as u8) == n,
{
}

/// Decoding hex text gives back the bytes it spells: each byte written as
/// two hex digits, each digit in either case, with white space around the
/// whole.
pub proof fn lemma_hex_round_trip(
    bytes: Seq<u8>,
    upper: Seq<bool>,
    before: Seq<char>,
    after: Seq<char>,
)
    requires
        forall|i: int| 0 <= i < before.len() ==> is_ws(#[trigger] before[i]),
        forall|i: int| 0 <= i < after.len() ==> is_ws(#[trigger] after[i]),
    ensures
        hex_text_result(before + hex_spelling(bytes, upper) + after) == Ok::<Seq<u8>, Seq<char>>(
            bytes,
        ),
{
    let h = hex_spelling(bytes, upper);
    let s = before + h + after;
    assert forall|i: int| 0 <= i < h.len() implies {
        &&& !is_ws(#[trigger] h[i])
        &&& '\0' <= h[i] <= '\u{7f}'
        &&& is_hex_digit(h[i] as u8)
    } by {
        if i % 2 == 0 {
            lemma_hex_char(bytes[i / 2] as int / 16, i < upper.len() && upper[i]);
        } else {
            lemma_hex_char(bytes[i / 2] as int % 16, i < upper.len() && upper[i]);
        }
    }
    assert(s == before + (h + after));
    lemma_trim_start_ws(before, h + after);
    if h.len() > 0 {
        assert((h + after)[0] == h[0]);
        assert(trim_start(h + after) == h + after);
        lemma_trim_end_ws(h, after);
        assert(h.last() == h[h.len() - 1]);
        assert(trim_end(h) == h);
    } else {
        assert(h + after == after);
        assert(after == after + Seq::<char>::empty());
        lemma_trim_start_ws(after, Seq::<char>::empty());
        assert(trim_start(Seq::<char>::empty()) == Seq::<char>::empty());
    }
    assert(trim(s) == h);
    assert(vstd::utf8::is_ascii_chars(h));
    vstd::utf8::is_ascii_chars_encode_utf8(h);
    let b = encode_utf8(h);
    assert(hex_text_bytes(s) == b);
    assert forall|i: int| 0 <= i < b.len() implies #[trigger] is_hex_digit(b[i]) by {
        assert(b[i] == h[i] as u8);
    }
    assert forall|k: int| 0 <= k < bytes.len() implies #[trigger] hex_pairs(b)[k] == bytes[k] by {
        let hi = bytes[k] as int / 16;
        let lo = bytes[k] as int % 16;
        let u0 = 2 * k < upper.len() && upper[2 * k];
        let u1 = 2 * k + 1 < upper.len() && upper[2 * k + 1];
        lemma_hex_char(hi, u0);
        lemma_hex_char(lo, u1);
        assert(b[2 * k] == h[2 * k] as u8);
        assert(b[2 * k + 1] == h[2 * k + 1] as u8);
        assert((2 * k) / 2 == k);
        assert((2 * k + 1) / 2 == k);
        assert(h[2 * k] == hex_char(hi, u0));
        assert(h[2 * k + 1] == hex_char(lo, u1));
        assert(16 * hi + lo == bytes[k]);
    }
    assert(hex_pairs(b) =~= bytes);
}

/// The value of a hex digit byte.
fn hex_val(b: u8) -> (r: Option<u8>)
    ensures
        match r {
            Some(v) => is_hex_digit(b) && v == hex_digit_value(b),
            None => !is_hex_digit(b),
        },
{
    if '0' as u8 <= b && b <= '9' as u8 {
        Some(b - '0' as u8)
    } else if 'a' as u8 <= b && b <= 'f' as u8 {
        Some(b - 'a' as u8 + 10)
    } else if 'A' as u8 <= b && b <= 'F' as u8 {
        Some(b - 'A' as u8 + 10)
    } else {
        None
    }
}

/// The message for a byte that is not a hex digit.
fn bad_hex_message(b: u8) -> (e: String)
    ensures
        e@ == "invalid hex char: "@.push(b as char),
{
    let mut e = "invalid hex char: ".to_owned();
    push_char(&mut e, b as char);
    e
}

/// Decodes hex digit pairs.
fn decode_even(b: &[u8]) -> (r: Result<Vec<u8>, String>)
    ensures
        match r {
            Ok(v) => hex_even_result(b@) == Ok::<Seq<u8>, Seq<char>>(v@),
            Err(e) => hex_even_result(b@) == Err::<Seq<u8>, Seq<char>>(e@),
        },
{
    let mut result: Vec<u8> = Vec::new();
    let mut i: usize = 0;
    while i < b.len()
        invariant
            i <= b.len(),
            i % 2 == 0 || i == b.len(),
            result.len() == (i + 1) / 2,
            forall|j: int| 0 <= j < i ==> #[trigger] is_hex_digit(b@[j]),
            forall|k: int| 0 <= k < result.len() ==> #[trigger] result@[k] == hex_pairs(b@)[k],
        decreases b.len() - i,
    {
        let hi = match hex_val(b[i]) {
            Some(v) => v,
            None => {
                proof {
                    lemma_first_bad_hex(b@, i as int);
                }
                return Err(bad_hex_message(b[i]));
            },
        };
        let lo = if i + 1 < b.len() {
            match hex_val(b[i + 1]) {
                Some(v) => v,
                None => {
                    proof {
                        lemma_first_bad_hex(b@, i + 1);
                    }
                    return Err(bad_hex_message(b[i + 1]));
                },
            }
        } else {
            0
        };
        result.push(hi * 16 + lo);
        i += 1;
        if i < b.len() {
            i += 1;
        }
    }
    assert(result@ =~= hex_pairs(b@));
    Ok(result)
}

/// Decodes hex text: it is trimmed, and an odd number of digits gets a `0` added.
pub fn decode(s: &str) -> (r: Result<Vec<u8>, String>)
    ensures
        match r {
            Ok(v) => hex_text_result(s@) == Ok::<Seq<u8>, Seq<char>>(v@),
            Err(e) => hex_text_result(s@) == Err::<Seq<u8>, Seq<char>>(e@),
        },
{
    let c = chars_of(s);
    let t = trim_chars(&c);
    let ts = string_of(&t);
    let mut b = copy_bytes(ts.as_str().as_bytes());
    if b.len() % 2 == 1 {
        b.push('0' as u8);
    }
    decode_even(&b)
}

/// The byte that a two-character escape `a b` stands for: the first byte that
/// decoding the text `ab` as hex gives, if it gives any.
#[verifier::opaque]
pub open spec fn escape_byte(a: char, b: char) -> Option<u8> {
    match hex_text_result(seq![a, b]) {
        Ok(v) => if v.len() > 0 {
            Some(v[0])
        } else {
            None
        },
        Err(_) => None,
    }
}

/// The bytes of the run of consecutive escapes at the start of `s`.
pub open spec fn escaped_run(s: Seq<char>, esc: char) -> Seq<u8>
    decreases s.len(),
{
    if s.len() >= 3 && s[0] == esc {
        match escape_byte(s[1], s[2]) {
            Some(b) => seq![b] + escaped_run(s.skip(3), esc),
            None => Seq::<u8>::empty(),
        }
    } else {
        Seq::<u8>::empty()
    }
}

/// Decoded bytes as text: UTF-8 when they are valid UTF-8, else one character per byte.
pub open spec fn bytes_as_text(b: Seq<u8>) -> Seq<char> {
    if valid_utf8(b) {
        decode_utf8(b)
    } else {
        b.map_values(|x: u8| x as char)
    }
}

pub proof fn lemma_escaped_run_len(s: Seq<char>, esc: char)
    ensures
        3 * escaped_run(s, esc).len() <= s.len(),
    decreases s.len(),
{
    if s.len() >= 3 && s[0] == esc {
        if escape_byte(s[1], s[2]) is Some {
            lemma_escaped_run_len(s.skip(3), esc);
        }
    }
}

/// Field data with its hex escapes (`^FH`) decoded: each run of escapes (the
/// escape character followed by two hex digits) becomes the text its bytes spell;
/// an escape character that does not start an escape is kept.
pub open spec fn unescape(s: Seq<char>, esc: char) -> Seq<char>
    decreases s.len(),
{
    if s.len() == 0 {
        Seq::<char>::empty()
    } else {
        let run = escaped_run(s, esc);
        if run.len() > 0 {
            proof {
                lemma_escaped_run_len(s, esc);
            }
            bytes_as_text(run) + unescape(s.skip(3 * run.len() as int), esc)
        } else {
            seq![s[0]] + unescape(s.drop_first(), esc)
        }
    }
}

/// Text from bytes (`String::from_utf8`): present when the bytes are valid UTF-8.
#[verifier::external_body]
pub(crate) fn utf8_string(bytes: Vec<u8>) -> (r: Option<String>)
    ensures
        match r {
            Some(s) => valid_utf8(bytes@) && s@ == decode_utf8(bytes@),
            None => !valid_utf8(bytes@),
        },
{
    String::from_utf8(bytes).ok()
}

/// The byte a two-character escape stands for.
fn decode_escape_pair(a: char, b: char) -> (r: Option<u8>)
    ensures
        r == escape_byte(a, b),
{
    let mut pair = String::new();
    push_char(&mut pair, a);
    push_char(&mut pair, b);
    assert(pair@ =~= seq![a, b]);
    reveal(escape_byte);
    match decode(pair.as_str()) {
        Ok(v) => if v.len() > 0 {
            Some(v[0])
        } else {
            None
        },
        Err(_) => None,
    }
}

/// Appends the text that the bytes `b` spell.
fn push_bytes_as_text(out: &mut String, b: Vec<u8>)
    ensures
        final(out)@ == old(out)@ + bytes_as_text(b@),
{
    let copy = copy_bytes(&b);
    match utf8_string(b) {
        Some(s) => {
            out.append(s.as_str());
        },
        None => {
            let mut i: usize = 0;
            let ghost start = out@;
            while i < copy.len()
                invariant
                    i <= copy.len(),
                    out@ == start + copy@.take(i as int).map_values(|x: u8| x as char),
                decreases copy.len() - i,
            {
                push_char(out, copy[i] as char);
                assert(copy@.take(i + 1).map_values(|x: u8| x as char) =~= copy@.take(
                    i as int,
                ).map_values(|x: u8| x as char).push(copy@[i as int] as char));
                i += 1;
            }
            assert(copy@.take(copy.len() as int) == copy@);
        },
    }
}

/// The bytes of the run of escapes at index `i` of `chars`, and the index after it.
fn collect_escape_run(chars: &Vec<char>, i: usize, esc: char) -> (r: (Vec<u8>, usize))
    requires
        i <= chars.len(),
    ensures
        r.0@ == escaped_run(chars@.skip(i as int), esc),
        r.1 == i + 3 * r.0.len(),
        r.1 <= chars.len(),
{
    let mut bytes: Vec<u8> = Vec::new();
    let mut j: usize = i;
    loop
        invariant
            i <= j <= chars.len(),
            j == i + 3 * bytes.len(),
            bytes@ + escaped_run(chars@.skip(j as int), esc) == escaped_run(chars@.skip(i as int), esc),
        ensures
            bytes@ == escaped_run(chars@.skip(i as int), esc),
            j == i + 3 * bytes.len(),
            j <= chars.len(),
        decreases chars.len() - j,
    {
        let ghost sj = chars@.skip(j as int);
        if !(j < chars.len() && chars.len() - j > 2 && chars[j] == esc) {
            assert(escaped_run(sj, esc) =~= Seq::<u8>::empty());
            assert(bytes@ + Seq::<u8>::empty() =~= bytes@);
            break;
        }
        assert(sj[0] == chars@[j as int] && sj[1] == chars@[j + 1] && sj[2] == chars@[j + 2]);
        match decode_escape_pair(chars[j + 1], chars[j + 2]) {
            Some(b) => {
                assert(sj.skip(3) =~= chars@.skip(j + 3));
                let ghost old_bytes = bytes@;
                bytes.push(b);
                assert(old_bytes + escaped_run(sj, esc) =~= bytes@ + escaped_run(chars@.skip(j + 3), esc));
                j += 3;
            },
            None => {
                assert(escaped_run(sj, esc) =~= Seq::<u8>::empty());
                assert(bytes@ + Seq::<u8>::empty() =~= bytes@);
                break;
            },
        }
    }
    (bytes, j)
}

/// Field data without the escape character comes through `^FH` decoding
/// unchanged.
pub proof fn lemma_unescape_plain(s: Seq<char>, esc: char)
    requires
        forall|i: int| 0 <= i < s.len() ==> s[i] != esc,
    ensures
        unescape(s, esc) == s,
    decreases s.len(),
{
    if s.len() > 0 {
        assert(escaped_run(s, esc).len() == 0);
        let t = s.drop_first();
        assert forall|i: int| 0 <= i < t.len() implies t[i] != esc by {
            assert(t[i] == s[i + 1]);
        }
        lemma_unescape_plain(t, esc);
        assert(seq![s[0]] + t =~= s);
    }
}

/// Decodes the hex escapes of field data; it always succeeds.
pub fn decode_escaped_string(value: &str, escape_char: u8) -> (r: Result<String, String>)
    ensures
        r matches Ok(s) && s@ == unescape(value@, escape_char as char),
{
    let esc = escape_char as char;
    let chars = chars_of(value);
    let mut result = String::new();
    let mut i: usize = 0;
    assert(chars@.skip(0) =~= chars@);
    assert(result@ + unescape(chars@, esc) =~= unescape(chars@, esc));
    while i < chars.len()
        invariant
            i <= chars.len(),
            result@ + unescape(chars@.skip(i as int), esc) == unescape(chars@, esc),
        decreases chars.len() - i,
    {
        let ghost rest = chars@.skip(i as int);
        let (bytes, j) = collect_escape_run(&chars, i, esc);
        assert(bytes@ =~= escaped_run(rest, esc));
        if bytes.len() == 0 {
            let c = chars[i];
            let ghost before = result@;
            push_char(&mut result, c);
            assert(rest[0] == c);
            assert(rest.drop_first() =~= chars@.skip(i + 1));
            assert(result@ + unescape(chars@.skip(i + 1), esc) =~= before + unescape(rest, esc));
            i += 1;
        } else {
            let ghost before = result@;
            let ghost run = bytes@;
            push_bytes_as_text(&mut result, bytes);
            assert(rest.skip(3 * run.len() as int) =~= chars@.skip(j as int));
            assert(result@ + unescape(chars@.skip(j as int), esc) =~= before + unescape(rest, esc));
            i = j;
        }
    }
    assert(unescape(chars@.skip(chars.len() as int), esc) =~= Seq::<char>::empty());
    Ok(result)
}

/// The repeat count that a compression letter adds: `G` to `Y` count 1 to 19,
/// `g` to `z` count 20 to 400 in steps of 20.
pub open spec fn compress_count_of(b: u8) -> Option<int> {
    if 'G' as u8 <= b && b <= 'Y' as u8 {
        Some(b - 'G' as u8 + 1)
    } else if 'g' as u8 <= b && b <= 'z' as u8 {
        Some(20 * (b - 'g' as u8 + 1))
    } else {
        None
    }
}

/// The repeat count that a compression letter adds.
fn compress_counts(b: u8) -> (r: Option<u64>)
    ensures
        match r {
            Some(c) => compress_count_of(b) == Some(c as int),
            None => compress_count_of(b) is None,
        },
{
    if 'G' as u8 <= b && b <= 'Y' as u8 {
        Some((b - 'G' as u8 + 1) as u64)
    } else if 'g' as u8 <= b && b <= 'z' as u8 {
        Some(20 * ((b - 'g' as u8 + 1) as u64))
    } else {
        None
    }
}

/// The number of UTF-8 bytes of a character.
pub open spec fn char_width(c: char) -> int {
    if (c as u32) < 0x80 {
        1
    } else if (c as u32) < 0x800 {
        2
    } else if (c as u32) < 0x10000 {
        3
    } else {
        4
    }
}

/// The number of UTF-8 bytes of a text.
pub open spec fn wlen(s: Seq<char>) -> int
    decreases s.len(),
{
    if s.len() == 0 {
        0
    } else {
        wlen(s.drop_last()) + char_width(s.last())
    }
}

pub proof fn lemma_wlen_push(s: Seq<char>, c: char)
    ensures
        wlen(s.push(c)) == wlen(s) + char_width(c),
{
    assert(s.push(c).drop_last() =~= s);
}

pub proof fn lemma_wlen_nonneg(s: Seq<char>)
    ensures
        wlen(s) >= 0,
    decreases s.len(),
{
    if s.len() > 0 {
        lemma_wlen_nonneg(s.drop_last());
    }
}

pub proof fn lemma_wlen_concat(a: Seq<char>, b: Seq<char>)
    ensures
        wlen(a + b) == wlen(a) + wlen(b),
    decreases b.len(),
{
    if b.len() > 0 {
        lemma_wlen_concat(a, b.drop_last());
        assert((a + b).drop_last() =~= a + b.drop_last());
    } else {
        assert(a + b =~= a);
    }
}

/// The largest number of bytes that expanded graphic data may have: twice the
/// three megabyte image limit.
pub open spec fn gf_limit() -> int {
    6291456
}

/// Adding `add` bytes to `cur` stays within the limit.
pub open spec fn size_ok(cur: int, add: int) -> bool {
    cur + add <= gf_limit()
}

/// `n` copies of `c`.
pub open spec fn repeat_char(c: char, n: int) -> Seq<char> {
    Seq::new(n as nat, |_i: int| c)
}

/// The state of the graphic data expansion: the finished hex text, the current
/// row, the previous row and the pending repeat count.
pub type GfState = (Seq<char>, Seq<char>, Seq<char>, int);

/// Closing the current row once it holds a full row of hex digits.
pub open spec fn gf_flush(st: GfState, row_hex: int) -> Option<GfState> {
    let (res, line, prev, cnt) = st;
    if wlen(line) >= row_hex {
        if size_ok(wlen(res) + wlen(line), 0) {
            Some((res + line, Seq::<char>::empty(), line, cnt))
        } else {
            None
        }
    } else {
        Some(st)
    }
}

/// The effect of one input byte on the expansion state.
pub open spec fn gf_apply(st: GfState, ch: u8, row_hex: int) -> Option<GfState> {
    let (res, line, prev, cnt) = st;
    match compress_count_of(ch) {
        Some(c) => Some((res, line, prev, cnt + c)),
        None => if ch == ',' as u8 || ch == '!' as u8 {
            let fill = if ch == ',' as u8 {
                '0'
            } else {
                '1'
            };
            let l = if row_hex > wlen(line) {
                row_hex - wlen(line)
            } else {
                0
            };
            if !size_ok(wlen(res) + wlen(line), l) {
                None
            } else if row_hex > wlen(line) {
                Some((res, line + repeat_char(fill, l), prev, cnt))
            } else {
                Some(st)
            }
        } else if ch == ':' as u8 {
            if !size_ok(wlen(res) + wlen(line), wlen(prev)) {
                None
            } else {
                Some((res, line + prev, prev, cnt))
            }
        } else {
            let l = if cnt > 1 {
                cnt
            } else {
                1
            };
            if !size_ok(wlen(res) + wlen(line), l) {
                None
            } else {
                Some((res, line + repeat_char(ch as char, l), prev, 0))
            }
        },
    }
}

/// A compression letter in front of a hex digit repeats that digit: `G` to
/// `Y` once to nineteen times, `g` to `z` twenty to four hundred times in
/// steps of twenty (so `g` twenty times and `z` four hundred times).
pub proof fn lemma_compression_repeats(st: GfState, k: int, h: u8, row_hex: int)
    requires
        0 <= k < 20,
        st.3 == 0,
        is_hex_digit(h),
        wlen(st.0) + wlen(st.1) + 400 <= gf_limit(),
    ensures
        compress_count_of('g' as u8) == Some(20int),
        compress_count_of('z' as u8) == Some(400int),
        compress_count_of('G' as u8) == Some(1int),
        compress_count_of('Y' as u8) == Some(19int),
        gf_apply(st, ('g' as int + k) as u8, row_hex) matches Some(st2) && gf_apply(st2, h, row_hex)
            == Some((st.0, st.1 + repeat_char(h as char, 20 * (k + 1)), st.2, 0int)),
        k < 19 ==> (gf_apply(st, ('G' as int + k) as u8, row_hex) matches Some(st2) && gf_apply(
            st2,
            h,
            row_hex,
        ) == Some((st.0, st.1 + repeat_char(h as char, k + 1), st.2, 0int))),
{
}

/// The state after the bytes `data`, or `None` once the size limit is broken.
pub open spec fn gf_run(data: Seq<u8>, row_hex: int) -> Option<GfState>
    decreases data.len(),
{
    if data.len() == 0 {
        Some((Seq::<char>::empty(), Seq::<char>::empty(), Seq::<char>::empty(), 0))
    } else {
        match gf_run(data.drop_last(), row_hex) {
            Some(st) => match gf_flush(st, row_hex) {
                Some(st2) => gf_apply(st2, data.last(), row_hex),
                None => None,
            },
            None => None,
        }
    }
}

/// The hex text that the compressed graphic data `data` expands to, with rows of
/// `row_hex` digits, or `None` when it would break the size limit.
pub open spec fn gf_expanded(data: Seq<u8>, row_hex: int) -> Option<Seq<char>> {
    match gf_run(data, row_hex) {
        Some((res, line, _prev, _cnt)) => if line.len() == 0 {
            Some(res)
        } else if size_ok(wlen(res) + wlen(line), 0) {
            Some(res + line)
        } else {
            None
        },
        None => None,
    }
}

/// The number of hex digits in a row of `row_bytes` bytes, as the machine computes it.
pub open spec fn row_hex_of(row_bytes: i32) -> int {
    row_bytes.wrapping_mul(2) as usize as int
}

/// The message for graphic data that exceeds the size limit.
pub open spec fn size_message() -> Seq<char> {
    "embedded image size cannot be greater than 3 MB"@
}

/// The position of the last `c` in `s`.
pub open spec fn last_index(s: Seq<char>, c: char) -> Option<int> {
    if exists|i: int| 0 <= i < s.len() && s[i] == c {
        Some(choose|i: int| 0 <= i < s.len() && s[i] == c && forall|j: int| i < j < s.len() ==> s[j] != c)
    } else {
        None
    }
}

/// What `base64`'s standard engine decodes from the text `input` (its message on failure).
pub uninterp spec fn base64_standard(input: Seq<char>) -> Result<Seq<u8>, Seq<char>>;

/// What `flate2`'s zlib decoder inflates from `input` (its message on failure).
pub uninterp spec fn zlib_inflate(input: Seq<u8>) -> Result<Seq<u8>, Seq<char>>;

/// The base64 text of Z64 data: after the `:Z64:` prefix and before the last `:`
/// (which starts the CRC).
pub open spec fn z64_payload(s: Seq<char>) -> Seq<char> {
    let rest = s.skip(5);
    match last_index(rest, ':') {
        Some(i) => rest.take(i),
        None => rest,
    }
}

/// The bytes of Z64 data (base64 of zlib-compressed bytes), or the message of the
/// step that failed.
pub open spec fn z64_result(s: Seq<char>) -> Result<Seq<u8>, Seq<char>> {
    match base64_standard(z64_payload(s)) {
        Err(e) => Err("base64 decode error: "@ + e),
        Ok(d) => match zlib_inflate(d) {
            Err(e) => Err("zlib decompress error: "@ + e),
            Ok(v) => Ok(v),
        },
    }
}

/// The bytes of `^GF` / `~DG` data: Z64 data when it starts with `:Z64:`, else
/// compressed hex expanded row by row and decoded.
pub open spec fn graphic_field_result(data: Seq<char>, row_bytes: i32) -> Result<Seq<u8>, Seq<char>> {
    if crate::text::has_prefix(data, ":Z64:"@) {
        z64_result(data)
    } else {
        match gf_expanded(encode_utf8(data), row_hex_of(row_bytes)) {
            None => Err(size_message()),
            Some(h) => match hex_text_result(h) {
                Ok(v) => Ok(v),
                Err(e) => Err("hex decode error: "@ + e),
            },
        }
    }
}

/// Decodes base64 text with the standard alphabet and padding.
#[verifier::external_body]
fn base64_decode(input: &str) -> (r: Result<Vec<u8>, String>)
    ensures
        match r {
            Ok(v) => base64_standard(input@) == Ok::<Seq<u8>, Seq<char>>(v@),
            Err(e) => base64_standard(input@) == Err::<Seq<u8>, Seq<char>>(e@),
        },
{
    base64::Engine::decode(&base64::engine::general_purpose::STANDARD, input).map_err(|e| e.to_string())
}

/// Inflates zlib-compressed bytes.
#[verifier::external_body]
fn zlib_decompress(input: &[u8]) -> (r: Result<Vec<u8>, String>)
    ensures
        match r {
            Ok(v) => zlib_inflate(input@) == Ok::<Seq<u8>, Seq<char>>(v@),
            Err(e) => zlib_inflate(input@) == Err::<Seq<u8>, Seq<char>>(e@),
        },
{
    let mut decoder = flate2::read::ZlibDecoder::new(input);
    let mut out = Vec::new();
    match decoder.read_to_end(&mut out) {
        Ok(_) => Ok(out),
        Err(e) => Err(e.to_string()),
    }
}

pub proof fn lemma_last_index(s: Seq<char>, c: char, i: int)
    requires
        0 <= i < s.len(),
        s[i] == c,
        forall|j: int| i < j < s.len() ==> s[j] != c,
    ensures
        last_index(s, c) == Some(i),
{
    let k = choose|k: int| 0 <= k < s.len() && s[k] == c && forall|j: int| k < j < s.len() ==> s[j] != c;
    assert(0 <= k < s.len() && s[k] == c && forall|j: int| k < j < s.len() ==> s[j] != c);
    if k < i {
        assert(s[i] != c);
    } else if k > i {
        assert(s[k] != c);
    }
}

/// The index of the last `c` in `v`, if any.
pub(crate) fn rfind_char(v: &[char], c: char) -> (r: Option<usize>)
    ensures
        match r {
            Some(i) => i < v.len() && last_index(v@, c) == Some(i as int),
            None => last_index(v@, c) is None,
        },
{
    let mut i: usize = v.len();
    while i > 0
        invariant
            i <= v.len(),
            forall|j: int| i <= j < v.len() ==> v@[j] != c,
        decreases i,
    {
        if v[i - 1] == c {
            proof {
                lemma_last_index(v@, c, i - 1);
            }
            return Some(i - 1);
        }
        i -= 1;
    }
    None
}

/// Whether graphic data is Z64 encoded (starts with `:Z64:`).
fn z64_encoded(value: &[char]) -> (b: bool)
    ensures
        b == crate::text::has_prefix(value@, ":Z64:"@),
{
    let p = chars_of(":Z64:");
    crate::text::starts_with(value, &p)
}

/// A message made of `prefix` followed by `detail`.
fn with_prefix(prefix: &str, detail: &str) -> (r: String)
    ensures
        r@ == prefix@ + detail@,
{
    let mut r = prefix.to_owned();
    r.append(detail);
    r
}

/// Decodes Z64 data: base64 text of zlib-compressed bytes.
fn decode_z64(value: &[char]) -> (r: Result<Vec<u8>, String>)
    requires
        crate::text::has_prefix(value@, ":Z64:"@),
    ensures
        match r {
            Ok(v) => z64_result(value@) == Ok::<Seq<u8>, Seq<char>>(v@),
            Err(e) => z64_result(value@) == Err::<Seq<u8>, Seq<char>>(e@),
        },
{
    proof {
        reveal_strlit(":Z64:");
    }
    let rest = crate::text::suffix_from(value, 5);
    assert(rest@ =~= value@.skip(5));
    let payload = match rfind_char(&rest, ':') {
        Some(idx) => crate::text::slice_range(&rest, 0, idx),
        None => crate::text::copy_chars(&rest),
    };
    assert(payload@ =~= z64_payload(value@));
    let text = string_of(&payload);
    let dec = match base64_decode(text.as_str()) {
        Ok(d) => d,
        Err(e) => {
            return Err(with_prefix("base64 decode error: ", e.as_str()));
        },
    };
    match zlib_decompress(&dec) {
        Ok(v) => Ok(v),
        Err(e) => Err(with_prefix("zlib decompress error: ", e.as_str())),
    }
}

/// Whether `add` more bytes fit after `cur` bytes of expanded graphic data.
fn validate_embedded_image_size(cur: usize, add: usize) -> (b: bool)
    ensures
        b == size_ok(cur as int, add as int),
{
    add <= 6291456 && cur <= 6291456 - add
}

/// The number of UTF-8 bytes of `c`.
pub(crate) fn char_width_of(c: char) -> (w: usize)
    ensures
        w == char_width(c),
{
    let u = c as u32;
    if u < 0x80 {
        1
    } else if u < 0x800 {
        2
    } else if u < 0x10000 {
        3
    } else {
        4
    }
}

/// Appends `n` copies of `c` to `v`, keeping `vlen` its UTF-8 byte count.
fn push_repeat(v: &mut Vec<char>, vlen: &mut usize, c: char, n: usize)
    requires
        *old(vlen) == wlen(old(v)@),
        *old(vlen) + 4 * n <= 0x4000_0000,
    ensures
        final(v)@ == old(v)@ + repeat_char(c, n as int),
        *final(vlen) == wlen(final(v)@),
        *final(vlen) <= *old(vlen) + 4 * n,
{
    let ghost start = v@;
    let ghost start_len = *vlen;
    let mut i: usize = 0;
    while i < n
        invariant
            i <= n,
            v@ == start + repeat_char(c, i as int),
            *vlen == wlen(v@),
            *vlen <= start_len + 4 * i,
            start_len + 4 * n <= 0x4000_0000,
        decreases n - i,
    {
        proof {
            lemma_wlen_push(v@, c);
        }
        v.push(c);
        *vlen = *vlen + char_width_of(c);
        i += 1;
        assert(v@ =~= start + repeat_char(c, i as int));
    }
}

/// Appends the characters of `src` to `v`, keeping `vlen` its UTF-8 byte count.
fn push_all(v: &mut Vec<char>, vlen: &mut usize, src: &Vec<char>, srclen: usize)
    requires
        *old(vlen) == wlen(old(v)@),
        srclen == wlen(src@),
        *old(vlen) + srclen <= 0x4000_0000,
    ensures
        final(v)@ == old(v)@ + src@,
        *final(vlen) == *old(vlen) + srclen,
{
    let ghost start = v@;
    let ghost start_len = *vlen;
    let mut i: usize = 0;
    while i < src.len()
        invariant
            i <= src.len(),
            v@ == start + src@.take(i as int),
            *vlen == wlen(v@),
            start_len == wlen(start),
            srclen == wlen(src@),
            start_len + srclen <= 0x4000_0000,
        decreases src.len() - i,
    {
        proof {
            lemma_wlen_push(v@, src@[i as int]);
            lemma_wlen_concat(start, src@.take(i + 1));
            lemma_wlen_concat(src@.take(i + 1), src@.skip(i + 1));
            assert(src@.take(i + 1) + src@.skip(i + 1) =~= src@);
            lemma_wlen_nonneg(src@.skip(i + 1));
            assert(start + src@.take(i + 1) =~= v@.push(src@[i as int]));
        }
        v.push(src[i]);
        *vlen = *vlen + char_width_of(src[i]);
        i += 1;
    }
    assert(src@.take(src.len() as int) == src@);
    proof {
        lemma_wlen_concat(start, src@);
    }
}

pub proof fn lemma_gf_none_extends(data: Seq<u8>, row_hex: int, k: int)
    requires
        0 <= k <= data.len(),
        gf_run(data.take(k), row_hex) is None,
    ensures
        gf_run(data, row_hex) is None,
    decreases data.len(),
{
    if data.len() == k {
        assert(data.take(k) =~= data);
    } else {
        assert(data.drop_last().take(k) =~= data.take(k));
        lemma_gf_none_extends(data.drop_last(), row_hex, k);
    }
}

/// The buffers of the graphic data expansion, with the UTF-8 byte counts of the
/// texts and the pending repeat count (capped, since only small counts matter).
struct GfBuffers {
    result: Vec<char>,
    rlen: usize,
    line: Vec<char>,
    llen: usize,
    prev: Vec<char>,
    plen: usize,
    cnt: u64,
}

impl GfBuffers {
    /// The buffers hold the state `st`.
    spec fn holds(&self, st: GfState) -> bool {
        &&& self.result@ == st.0
        &&& self.line@ == st.1
        &&& self.prev@ == st.2
        &&& self.rlen == wlen(st.0)
        &&& self.llen == wlen(st.1)
        &&& self.plen == wlen(st.2)
        &&& self.rlen <= gf_limit()
        &&& self.plen <= gf_limit()
        &&& self.llen <= 5 * gf_limit()
        &&& st.3 >= 0
        &&& self.cnt == (if st.3 < 0x1_0000_0000 { st.3 } else { 0x1_0000_0000 })
    }

    /// Closes the current row when it is full.
    fn flush(&mut self, Ghost(st): Ghost<GfState>, row_hex: usize) -> (r: (bool, Ghost<GfState>))
        requires
            old(self).holds(st),
        ensures
            r.0 ==> gf_flush(st, row_hex as int) == Some(r.1@) && final(self).holds(r.1@),
            !r.0 ==> gf_flush(st, row_hex as int) is None,
    {
        if self.llen >= row_hex {
            if !validate_embedded_image_size(self.rlen + self.llen, 0) {
                return (false, Ghost(st));
            }
            let mut line: Vec<char> = Vec::new();
            std::mem::swap(&mut line, &mut self.line);
            push_all(&mut self.result, &mut self.rlen, &line, self.llen);
            self.plen = self.llen;
            self.prev = line;
            self.llen = 0;
            proof {
                lemma_wlen_concat(st.0, st.1);
            }
            (true, Ghost((st.0 + st.1, Seq::<char>::empty(), st.1, st.3)))
        } else {
            (true, Ghost(st))
        }
    }

    /// Applies one input byte.
    fn apply(&mut self, Ghost(st): Ghost<GfState>, ch: u8, row_hex: usize) -> (r: (bool, Ghost<GfState>))
        requires
            old(self).holds(st),
        ensures
            r.0 ==> gf_apply(st, ch, row_hex as int) == Some(r.1@) && final(self).holds(r.1@),
            !r.0 ==> gf_apply(st, ch, row_hex as int) is None,
    {
        proof {
            lemma_wlen_nonneg(st.0);
            lemma_wlen_nonneg(st.1);
            lemma_wlen_nonneg(st.2);
        }
        match compress_counts(ch) {
            Some(c) => {
                let n = self.cnt + c;
                self.cnt = if n > 0x1_0000_0000 { 0x1_0000_0000 } else { n };
                return (true, Ghost((st.0, st.1, st.2, st.3 + c)));
            },
            None => {},
        }
        if ch == ',' as u8 || ch == '!' as u8 {
            let fill = if ch == ',' as u8 { '0' } else { '1' };
            let l = row_hex.saturating_sub(self.llen);
            if !validate_embedded_image_size(self.rlen + self.llen, l) {
                return (false, Ghost(st));
            }
            if row_hex > self.llen {
                push_repeat(&mut self.line, &mut self.llen, fill, l);
                proof {
                    lemma_wlen_concat(st.1, repeat_char(fill, l as int));
                }
                (true, Ghost((st.0, st.1 + repeat_char(fill, l as int), st.2, st.3)))
            } else {
                (true, Ghost(st))
            }
        } else if ch == ':' as u8 {
            if !validate_embedded_image_size(self.rlen + self.llen, self.plen) {
                return (false, Ghost(st));
            }
            let prev = crate::text::copy_chars(&self.prev);
            push_all(&mut self.line, &mut self.llen, &prev, self.plen);
            proof {
                lemma_wlen_concat(st.1, st.2);
            }
            (true, Ghost((st.0, st.1 + st.2, st.2, st.3)))
        } else {
            if self.cnt > 6291456 {
                return (false, Ghost(st));
            }
            let l: usize = if self.cnt > 1 { self.cnt as usize } else { 1 };
            if !validate_embedded_image_size(self.rlen + self.llen, l) {
                return (false, Ghost(st));
            }
            push_repeat(&mut self.line, &mut self.llen, ch as char, l);
            self.cnt = 0;
            (true, Ghost((st.0, st.1 + repeat_char(ch as char, l as int), st.2, 0)))
        }
    }
}

/// Decodes `^GF` / `~DG` graphic data (see [`graphic_field_result`]).
pub fn decode_graphic_field_data(data: &str, row_bytes: i32) -> (r: Result<Vec<u8>, String>)
    ensures
        match r {
            Ok(v) => graphic_field_result(data@, row_bytes) == Ok::<Seq<u8>, Seq<char>>(v@),
            Err(e) => graphic_field_result(data@, row_bytes) == Err::<Seq<u8>, Seq<char>>(e@),
        },
{
    let chars = chars_of(data);
    if z64_encoded(&chars) {
        return decode_z64(&chars);
    }
    let bytes = data.as_bytes();
    let row_hex: usize = row_bytes.wrapping_mul(2) as usize;
    let mut buf = GfBuffers {
        result: Vec::new(),
        rlen: 0,
        line: Vec::new(),
        llen: 0,
        prev: Vec::new(),
        plen: 0,
        cnt: 0,
    };
    let ghost mut st: GfState = (Seq::<char>::empty(), Seq::<char>::empty(), Seq::<char>::empty(), 0);
    assert(bytes@.take(0) =~= Seq::<u8>::empty());
    let mut k: usize = 0;
    while k < bytes.len()
        invariant
            k <= bytes.len(),
            !crate::text::has_prefix(data@, ":Z64:"@),
            bytes@ == encode_utf8(data@),
            row_hex as int == row_hex_of(row_bytes),
            gf_run(bytes@.take(k as int), row_hex as int) == Some(st),
            buf.holds(st),
        decreases bytes.len() - k,
    {
        assert(bytes@.take(k + 1).drop_last() =~= bytes@.take(k as int));
        assert(bytes@.take(k + 1).last() == bytes@[k as int]);
        let (ok, Ghost(st2)) = buf.flush(Ghost(st), row_hex);
        if !ok {
            proof {
                lemma_gf_none_extends(bytes@, row_hex as int, k + 1);
            }
            return Err("embedded image size cannot be greater than 3 MB".to_owned());
        }
        let (ok2, Ghost(st3)) = buf.apply(Ghost(st2), bytes[k], row_hex);
        if !ok2 {
            proof {
                lemma_gf_none_extends(bytes@, row_hex as int, k + 1);
            }
            return Err("embedded image size cannot be greater than 3 MB".to_owned());
        }
        proof {
            st = st3;
        }
        k += 1;
    }
    assert(bytes@.take(bytes.len() as int) =~= bytes@);
    if buf.line.len() > 0 {
        if !validate_embedded_image_size(buf.rlen + buf.llen, 0) {
            return Err("embedded image size cannot be greater than 3 MB".to_owned());
        }
        let mut line: Vec<char> = Vec::new();
        std::mem::swap(&mut line, &mut buf.line);
        push_all(&mut buf.result, &mut buf.rlen, &line, buf.llen);
    }
    let hex_text = string_of(&buf.result);
    match decode(hex_text.as_str()) {
        Ok(v) => Ok(v),
        Err(e) => Err(with_prefix("hex decode error: ", e.as_str())),
    }
}

} // verus!
