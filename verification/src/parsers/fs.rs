//! Printer storage paths such as `R:LOGO.GRF`.
use vstd::prelude::*;
use vstd::string::StringExecFns;
use crate::text::{chars_of, find_char, first_index, lemma_first_index, slice_range, string_of};

verus! {

/// The path a format is stored under when `^DF` names none.
pub const STORED_FORMAT_DEFAULT_PATH: &'static str = "R:UNKNOWN.ZPL";

/// The path graphics are stored under when `~DG` names none.
pub const STORED_GRAPHICS_DEFAULT_PATH: &'static str = "R:UNKNOWN.GRF";

/// The device part of a path: the text before its first `:`.
pub open spec fn device_of(path: Seq<char>) -> Option<Seq<char>> {
    match first_index(path, ':') {
        Some(i) => Some(path.take(i)),
        None => None,
    }
}

/// The printer's storage devices: `R`, `E`, `B`, `A` and `Z`.
pub open spec fn is_valid_device(d: Seq<char>) -> bool {
    d.len() == 1 && (d[0] == 'R' || d[0] == 'E' || d[0] == 'B' || d[0] == 'A' || d[0] == 'Z')
}

/// `path` starts with one of the printer's devices followed by `:`.
pub open spec fn path_ok(path: Seq<char>) -> bool {
    device_of(path) matches Some(d) && is_valid_device(d)
}

/// The message that rejects `path`.
pub open spec fn device_error_text(path: Seq<char>) -> Seq<char> {
    match device_of(path) {
        None => "path does not contain device name"@,
        Some(d) => "invalid device name "@ + d + ", must be one of [\"R\", \"E\", \"B\", \"A\", \"Z\"]"@,
    }
}

/// Checks that `path` starts with a known device followed by `:`.
pub fn validate_device(path: &str) -> (r: Result<(), String>)
    ensures
        match r {
            Ok(()) => path_ok(path@),
            Err(e) => !path_ok(path@) && e@ == device_error_text(path@),
        },
{
    let p = chars_of(path);
    match find_char(&p, ':') {
        Some(idx) => {
            let device = slice_range(&p, 0, idx);
            assert(device@ == p@.take(idx as int));
            if device.len() == 1 && (device[0] == 'R' || device[0] == 'E' || device[0] == 'B'
                || device[0] == 'A' || device[0] == 'Z') {
                return Ok(());
            }
            let mut msg = "invalid device name ".to_owned();
            let d = string_of(&device);
            msg.append(d.as_str());
            msg.append(", must be one of [\"R\", \"E\", \"B\", \"A\", \"Z\"]");
            Err(msg)
        },
        None => Err("path does not contain device name".to_owned()),
    }
}

/// `path` with its extension (from the first `.` on) replaced by `.ext`, or `.ext`
/// added when it has none.
pub open spec fn with_extension(path: Seq<char>, ext: Seq<char>) -> Seq<char> {
    match first_index(path, '.') {
        Some(i) => path.take(i) + seq!['.'] + ext,
        None => path + seq!['.'] + ext,
    }
}

/// `path` with the extension `ext`.
pub fn ensure_extension(path: &str, ext: &str) -> (r: String)
    ensures
        r@ == with_extension(path@, ext@),
{
    let p = chars_of(path);
    let stem = match find_char(&p, '.') {
        Some(idx) => slice_range(&p, 0, idx),
        None => slice_range(&p, 0, p.len()),
    };
    assert(p@.subrange(0, p.len() as int) == p@);
    let mut r = string_of(&stem);
    crate::text::push_char(&mut r, '.');
    r.append(ext);
    r
}


proof fn lemma_first_index_props(s: Seq<char>, c: char)
    ensures
        match first_index(s, c) {
            Some(i) => 0 <= i < s.len() && s[i] == c && forall|j: int| 0 <= j < i ==> s[j] != c,
            None => forall|j: int| 0 <= j < s.len() ==> s[j] != c,
        },
{
    if exists|i: int| 0 <= i < s.len() && s[i] == c {
        let w = choose|i: int| 0 <= i < s.len() && s[i] == c;
        let k = lemma_earliest(s, c, w);
        lemma_first_index(s, c, k);
    }
}

proof fn lemma_earliest(s: Seq<char>, c: char, w: int) -> (k: int)
    requires
        0 <= w < s.len(),
        s[w] == c,
    ensures
        0 <= k <= w,
        s[k] == c,
        forall|j: int| 0 <= j < k ==> s[j] != c,
    decreases w,
{
    if exists|j: int| 0 <= j < w && s[j] == c {
        let v = choose|j: int| 0 <= j < w && s[j] == c;
        lemma_earliest(s, c, v)
    } else {
        w
    }
}

/// Giving a path an extension twice is giving it once: the result keeps its
/// stem and its first `.`, so the second call finds the same stem.
pub proof fn lemma_ensure_extension_idempotent(path: Seq<char>, ext: Seq<char>)
    ensures
        with_extension(with_extension(path, ext), ext) == with_extension(path, ext),
{
    let once = with_extension(path, ext);
    lemma_first_index_props(path, '.');
    match first_index(path, '.') {
        Some(i) => {
            assert(once == path.take(i) + seq!['.'] + ext);
            assert(once[i] == '.');
            assert forall|j: int| 0 <= j < i implies once[j] != '.' by {
                assert(once[j] == path[j]);
            }
            lemma_first_index(once, '.', i);
            assert(once.take(i) =~= path.take(i));
        },
        None => {
            let n = path.len() as int;
            assert(once == path + seq!['.'] + ext);
            assert(once[n] == '.');
            assert forall|j: int| 0 <= j < n implies once[j] != '.' by {
                assert(once[j] == path[j]);
            }
            lemma_first_index(once, '.', n);
            assert(once.take(n) =~= path);
        },
    }
}

} // verus!
