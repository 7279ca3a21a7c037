use vstd::prelude::*;
use super::label_position::LabelPosition;
use super::reverse_print::ReversePrint;
use vstd::utf8::{decode_utf8, encode_utf8, is_char_boundary, valid_utf8};

verus! {

/// MaxiCode settings from `^BD`.
#[derive(Clone, Copy, Debug, PartialEq, Eq, Structural)]
pub struct Maxicode {
    pub mode: i32,
}

/// A MaxiCode symbol with its field data.
#[derive(Debug)]
pub struct MaxicodeWithData {
    pub reverse_print: ReversePrint,
    pub code: Maxicode,
    pub position: LabelPosition,
    pub data: String,
}

/// The bytes of the structured-data header `[)>` RS `01` GS.
pub open spec fn maxicode_header() -> Seq<u8> {
    seq![91u8, 41, 62, 30, 48, 49, 29]
}

/// The header starts at byte `i` of `b`.
pub open spec fn header_at(b: Seq<u8>, i: int) -> bool {
    0 <= i && i + 7 <= b.len() && b.subrange(i, i + 7) == maxicode_header()
}

/// Where the header first starts in `b`.
#[verifier::opaque]
pub open spec fn header_pos(b: Seq<u8>) -> Option<int> {
    if exists|i: int| header_at(b, i) {
        Some(choose|i: int| header_at(b, i) && forall|j: int| 0 <= j < i ==> !header_at(b, j))
    } else {
        None
    }
}

/// The MaxiCode input: the nine header bytes, then postal code, country and
/// class of service (from the first seven bytes of the main data), each
/// followed by GS, then the rest of the data after the header.
pub open spec fn maxicode_input(b: Seq<u8>) -> Result<Seq<u8>, Seq<char>> {
    match header_pos(b) {
        Some(p) => if b.len() < p + 9 {
            Err("invalid length of maxicode data"@)
        } else if p < 7 {
            Err("invalid length of maxicode main data"@)
        } else {
            Ok(maxicode_join(b, p))
        },
        None => Err("invalid length of maxicode data"@),
    }
}

/// The header (nine bytes from `p`), postal code, country and class of
/// service each followed by GS, then what follows the header.
pub open spec fn maxicode_join(b: Seq<u8>, p: int) -> Seq<u8> {
    b.subrange(p, p + 9) + b.subrange(6, p) + seq![29u8] + b.subrange(3, 6) + seq![29u8]
        + b.subrange(0, 3) + seq![29u8] + b.subrange(p + 9, b.len() as int)
}

/// The byte offsets at which `get_input_data` cuts the data fall between
/// characters.
pub open spec fn maxicode_cuts_ok(b: Seq<u8>) -> bool {
    match header_pos(b) {
        Some(p) => b.len() >= p + 9 ==> {
            &&& is_char_boundary(b, p + 9)
            &&& p >= 7 ==> is_char_boundary(b, 3) && is_char_boundary(b, 6)
        },
        None => true,
    }
}

proof fn lemma_header_pos(b: Seq<u8>, i: int)
    requires
        header_at(b, i),
        forall|j: int| 0 <= j < i ==> !header_at(b, j),
    ensures
        header_pos(b) == Some(i),
{
    reveal(header_pos);
    let k = choose|k: int| header_at(b, k) && forall|j: int| 0 <= j < k ==> !header_at(b, j);
    assert(header_at(b, k) && forall|j: int| 0 <= j < k ==> !header_at(b, j));
    if k < i {
        assert(!header_at(b, k));
    } else if i < k {
        assert(!header_at(b, i));
    }
}

fn header_at_exec(b: &[u8], i: usize) -> (r: bool)
    requires
        i + 7 <= b@.len(),
    ensures
        r == header_at(b@, i as int),
{
    let r = b[i] == 91 && b[i + 1] == 41 && b[i + 2] == 62 && b[i + 3] == 30 && b[i + 4] == 48
        && b[i + 5] == 49 && b[i + 6] == 29;
    proof {
        if r {
            assert(b@.subrange(i as int, i + 7) =~= maxicode_header());
        }
        if header_at(b@, i as int) {
            assert(b@.subrange(i as int, i + 7)[0] == b@[i as int]);
            assert(b@.subrange(i as int, i + 7)[1] == b@[i + 1]);
            assert(b@.subrange(i as int, i + 7)[2] == b@[i + 2]);
            assert(b@.subrange(i as int, i + 7)[3] == b@[i + 3]);
            assert(b@.subrange(i as int, i + 7)[4] == b@[i + 4]);
            assert(b@.subrange(i as int, i + 7)[5] == b@[i + 5]);
            assert(b@.subrange(i as int, i + 7)[6] == b@[i + 6]);
        }
    }
    r
}

fn find_header(b: &[u8]) -> (r: Option<usize>)
    ensures
        match r {
            Some(p) => header_pos(b@) == Some(p as int) && header_at(b@, p as int),
            None => header_pos(b@) is None,
        },
{
    reveal(header_pos);
    let n = b.len();
    if n < 7 {
        proof {
            assert forall|i: int| !header_at(b@, i) by {}
        }
        return None;
    }
    let mut i: usize = 0;
    while i <= n - 7
        invariant
            n == b@.len(),
            n >= 7,
            i <= n - 6,
            forall|j: int| 0 <= j < i ==> !header_at(b@, j),
        decreases n - i,
    {
        if header_at_exec(b, i) {
            proof {
                lemma_header_pos(b@, i as int);
            }
            return Some(i);
        }
        i += 1;
    }
    proof {
        assert forall|j: int| !header_at(b@, j) by {
            if 0 <= j && j < i {
            }
        }
    }
    None
}

fn byte_piece(b: &[u8], a: usize, c: usize, out: &mut Vec<u8>)
    requires
        a <= c <= b@.len(),
    ensures
        final(out)@ == old(out)@ + b@.subrange(a as int, c as int),
{
    let mut i = a;
    while i < c
        invariant
            a <= i <= c <= b@.len(),
            out@ == old(out)@ + b@.subrange(a as int, i as int),
        decreases c - i,
    {
        out.push(b[i]);
        proof {
            assert(out@ =~= old(out)@ + b@.subrange(a as int, i + 1));
        }
        i += 1;
    }
}

proof fn lemma_valid_piece(b: Seq<u8>, a: int, c: int)
    requires
        valid_utf8(b),
        0 <= a <= c <= b.len(),
        is_char_boundary(b, a),
        is_char_boundary(b, c),
    ensures
        valid_utf8(b.subrange(a, c)),
{
    vstd::utf8::valid_utf8_split(b, c);
    let pre = b.subrange(0, c);
    if a < c {
        vstd::utf8::is_char_boundary_iff_not_is_continuation_byte(b, a);
        vstd::utf8::is_char_boundary_iff_not_is_continuation_byte(pre, a);
        assert(pre[a] == b[a]);
    } else {
        vstd::utf8::is_char_boundary_start_end_of_seq(pre);
    }
    vstd::utf8::valid_utf8_split(pre, a);
    assert(pre.subrange(a, c) =~= b.subrange(a, c));
}

proof fn lemma_gs_valid()
    ensures
        valid_utf8(seq![29u8]),
{
    let s = seq![29u8];
    assert(vstd::utf8::valid_first_scalar(s));
    assert(vstd::utf8::length_of_first_scalar(s) == 1);
    assert(s.subrange(1, 1) =~= Seq::<u8>::empty());
    assert(valid_utf8(s.subrange(1, 1)));
    assert(valid_utf8(s));
}

/// The pieces that `get_input_data` joins are valid UTF-8 when the data is and
/// the cuts fall between characters.
proof fn lemma_input_valid(bs: Seq<u8>, p: int)
    requires
        valid_utf8(bs),
        header_at(bs, p),
        7 <= p,
        p + 9 <= bs.len(),
        is_char_boundary(bs, p + 9),
        is_char_boundary(bs, 3),
        is_char_boundary(bs, 6),
    ensures
        valid_utf8(maxicode_join(bs, p)),
{
    let gs = seq![29u8];
    vstd::utf8::is_char_boundary_start_end_of_seq(bs);
    vstd::utf8::is_char_boundary_iff_not_is_continuation_byte(bs, p);
    assert(bs[p] == 91u8) by {
        assert(bs.subrange(p, p + 7)[0] == bs[p]);
    }
    assert(is_char_boundary(bs, p));
    lemma_valid_piece(bs, p, p + 9);
    lemma_valid_piece(bs, 6, p);
    lemma_valid_piece(bs, 3, 6);
    lemma_valid_piece(bs, 0, 3);
    lemma_valid_piece(bs, p + 9, bs.len() as int);
    lemma_gs_valid();
    let a1 = bs.subrange(p, p + 9);
    let a2 = a1 + bs.subrange(6, p);
    let a3 = a2 + gs;
    let a4 = a3 + bs.subrange(3, 6);
    let a5 = a4 + gs;
    let a6 = a5 + bs.subrange(0, 3);
    let a7 = a6 + gs;
    vstd::utf8::valid_utf8_concat(a1, bs.subrange(6, p));
    vstd::utf8::valid_utf8_concat(a2, gs);
    vstd::utf8::valid_utf8_concat(a3, bs.subrange(3, 6));
    vstd::utf8::valid_utf8_concat(a4, gs);
    vstd::utf8::valid_utf8_concat(a5, bs.subrange(0, 3));
    vstd::utf8::valid_utf8_concat(a6, gs);
    vstd::utf8::valid_utf8_concat(a7, bs.subrange(p + 9, bs.len() as int));
}

/// The bytes of the MaxiCode input, from the bytes of the field data.
fn input_bytes(b: &[u8]) -> (r: Result<Vec<u8>, String>)
    requires
        valid_utf8(b@),
        maxicode_cuts_ok(b@),
    ensures
        match maxicode_input(b@) {
            Ok(t) => r matches Ok(v) && v@ == t && valid_utf8(t),
            Err(e) => r matches Err(e2) && e2@ == e,
        },
{
    let p = match find_header(b) {
        Some(p) => p,
        None => {
            return Err("invalid length of maxicode data".to_owned());
        },
    };
    if b.len() < 9 || b.len() - 9 < p {
        return Err("invalid length of maxicode data".to_owned());
    }
    if p < 7 {
        return Err("invalid length of maxicode main data".to_owned());
    }
    let mut out: Vec<u8> = Vec::new();
    byte_piece(b, p, p + 9, &mut out);
    byte_piece(b, 6, p, &mut out);
    out.push(29);
    byte_piece(b, 3, 6, &mut out);
    out.push(29);
    byte_piece(b, 0, 3, &mut out);
    out.push(29);
    byte_piece(b, p + 9, b.len(), &mut out);
    proof {
        lemma_input_valid(b@, p as int);
        assert(out@ =~= maxicode_join(b@, p as int));
    }
    Ok(out)
}

impl MaxicodeWithData {
    /// Whether the byte offsets at which [`Self::get_input_data`] cuts the data
    /// fall between characters.
    pub fn input_cuts_ok(&self) -> (ok: bool)
        ensures
            ok == maxicode_cuts_ok(encode_utf8(self.data@)),
    {
        let s = self.data.as_str();
        let b = s.as_bytes();
        match find_header(b) {
            None => true,
            Some(p) => {
                if b.len() < 9 || p > b.len() - 9 {
                    true
                } else if !s.is_char_boundary(p + 9) {
                    false
                } else if p >= 7 {
                    s.is_char_boundary(3) && s.is_char_boundary(6)
                } else {
                    true
                }
            },
        }
    }

    /// The MaxiCode input for structured data: the header (`[)>` RS `01` GS
    /// and two more bytes), then postal code, country and class of service
    /// taken from the main data in front of the header, then the rest.
    pub fn get_input_data(&self) -> (r: Result<String, String>)
        requires
            maxicode_cuts_ok(encode_utf8(self.data@)),
        ensures
            match maxicode_input(encode_utf8(self.data@)) {
                Ok(t) => r matches Ok(s) && valid_utf8(t) && s@ == decode_utf8(t),
                Err(e) => r matches Err(e2) && e2@ == e,
            },
    {
        let b = self.data.as_str().as_bytes();
        proof {
            vstd::utf8::encode_utf8_valid_utf8(self.data@);
        }
        match input_bytes(b) {
            Ok(out) => match crate::hex::utf8_string(out) {
                Some(s) => Ok(s),
                None => Err("invalid length of maxicode data".to_owned()),
            },
            Err(e) => Err(e),
        }
    }
}

} // verus!
