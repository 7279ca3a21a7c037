//! Character-level helpers shared by the parsers: trimming, splitting,
//! prefix tests and the integer readers that ZPL and EPL parameters use.
use vstd::prelude::*;
use vstd::string::StringSliceAdditionalSpecFns;

verus! {

/// An ASCII decimal digit.
pub open spec fn is_digit(c: char) -> bool {
    '0' <= c && c <= '9'
}

/// The value of an ASCII decimal digit.
pub open spec fn digit_val(c: char) -> int {
    c as int - '0' as int
}

/// White space as `char::is_whitespace` defines it (the Unicode `White_Space` property).
pub open spec fn is_ws(c: char) -> bool {
    ||| ('\u{9}' <= c && c <= '\u{d}')
    ||| c == ' '
    ||| c == '\u{85}'
    ||| c == '\u{a0}'
    ||| c == '\u{1680}'
    ||| ('\u{2000}' <= c && c <= '\u{200a}')
    ||| c == '\u{2028}'
    ||| c == '\u{2029}'
    ||| c == '\u{202f}'
    ||| c == '\u{205f}'
    ||| c == '\u{3000}'
}

/// `s` with its leading white space removed.
pub open spec fn trim_start(s: Seq<char>) -> Seq<char>
    decreases s.len(),
{
    if s.len() > 0 && is_ws(s[0]) {
        trim_start(s.drop_first())
    } else {
        s
    }
}

/// `s` with its trailing white space removed.
pub open spec fn trim_end(s: Seq<char>) -> Seq<char>
    decreases s.len(),
{
    if s.len() > 0 && is_ws(s.last()) {
        trim_end(s.drop_last())
    } else {
        s
    }
}

/// `s` with white space removed at both ends (`str::trim`).
pub open spec fn trim(s: Seq<char>) -> Seq<char> {
    trim_end(trim_start(s))
}

/// `p` is a prefix of `s`.
pub open spec fn has_prefix(s: Seq<char>, p: Seq<char>) -> bool {
    p.len() <= s.len() && s.take(p.len() as int) == p
}

/// The pieces of `s` between occurrences of `sep` (`str::split` with a `char`).
/// There is always at least one piece; the empty text gives one empty piece.
pub open spec fn split_on(s: Seq<char>, sep: char) -> Seq<Seq<char>>
    decreases s.len(),
{
    if s.len() == 0 {
        seq![Seq::<char>::empty()]
    } else {
        let rest = split_on(s.drop_last(), sep);
        if s.last() == sep {
            rest.push(Seq::<char>::empty())
        } else {
            rest.update(rest.len() - 1, rest.last().push(s.last()))
        }
    }
}

/// The number that the decimal digits `d` spell, most significant first.
pub open spec fn digits_value(d: Seq<char>) -> int
    decreases d.len(),
{
    if d.len() == 0 {
        0
    } else {
        10 * digits_value(d.drop_last()) + digit_val(d.last())
    }
}

/// Every character of `d` is a decimal digit.
pub open spec fn all_digits(d: Seq<char>) -> bool {
    forall|i: int| 0 <= i < d.len() ==> #[trigger] is_digit(d[i])
}

/// The mathematical value of `s` read as Rust reads an `i32`: an optional `+` or `-`
/// followed by one or more decimal digits, nothing else.
pub open spec fn int_text_value(s: Seq<char>) -> Option<int> {
    if s.len() > 0 && (s[0] == '+' || s[0] == '-') {
        let d = s.drop_first();
        if d.len() > 0 && all_digits(d) {
            Some(if s[0] == '-' { -digits_value(d) } else { digits_value(d) })
        } else {
            None
        }
    } else if s.len() > 0 && all_digits(s) {
        Some(digits_value(s))
    } else {
        None
    }
}

/// `str::parse::<i32>`: the value of `s` when it is integer text that fits in an `i32`.
pub open spec fn spec_parse_i32(s: Seq<char>) -> Option<i32> {
    match int_text_value(s) {
        Some(v) => if i32::MIN <= v && v <= i32::MAX {
            Some(v as i32)
        } else {
            None
        },
        None => None,
    }
}

/// ASCII upper case of one character; other characters are kept.
pub open spec fn ascii_upper(c: char) -> char {
    if 'a' <= c && c <= 'z' {
        ((c as u8) - 32) as char
    } else {
        c
    }
}

/// ASCII upper case of a text.
pub open spec fn upper_seq(s: Seq<char>) -> Seq<char> {
    s.map_values(|c: char| ascii_upper(c))
}

/// `p` is a prefix of `s` when letters are compared without regard to ASCII case.
pub open spec fn has_prefix_ci(s: Seq<char>, p: Seq<char>) -> bool {
    p.len() <= s.len() && forall|i: int| 0 <= i < p.len() ==> ascii_upper(#[trigger] s[i]) == p[i]
}

pub proof fn lemma_digits_value_nonneg(d: Seq<char>)
    requires
        all_digits(d),
    ensures
        digits_value(d) >= 0,
    decreases d.len(),
{
    if d.len() > 0 {
        assert(all_digits(d.drop_last())) by {
            assert forall|i: int| 0 <= i < d.drop_last().len() implies is_digit(
                d.drop_last()[i],
            ) by {
                assert(d.drop_last()[i] == d[i]);
            }
        }
        assert(is_digit(d[d.len() - 1]));
        lemma_digits_value_nonneg(d.drop_last());
    }
}

/// The characters of `s`, in order.
pub fn chars_of(s: &str) -> (v: Vec<char>)
    ensures
        v@ == s@,
{
    let mut v: Vec<char> = Vec::new();
    for c in it: s.chars()
        invariant
            v@ == it.seq().take(it.index() as int),
            it.seq() == s@,
    {
        v.push(c);
    }
    v
}

/// Appends one character to a string (`String::push`).
#[verifier::external_body]
pub(crate) fn push_char(s: &mut String, c: char)
    ensures
        final(s)@ == old(s)@.push(c),
{
    s.push(c);
}

/// A string holding the characters of `v`.
pub fn string_of(v: &[char]) -> (s: String)
    ensures
        s@ == v@,
{
    let mut s = String::new();
    let mut i: usize = 0;
    while i < v.len()
        invariant
            i <= v.len(),
            s@ == v@.take(i as int),
        decreases v.len() - i,
    {
        push_char(&mut s, v[i]);
        assert(v@.take(i + 1) == v@.take(i as int).push(v@[i as int]));
        i += 1;
    }
    assert(v@.take(v.len() as int) == v@);
    s
}

/// A copy of the characters in `v`.
pub fn copy_chars(v: &[char]) -> (r: Vec<char>)
    ensures
        r@ == v@,
{
    let mut r: Vec<char> = Vec::new();
    let mut i: usize = 0;
    while i < v.len()
        invariant
            i <= v.len(),
            r@ == v@.take(i as int),
        decreases v.len() - i,
    {
        r.push(v[i]);
        assert(v@.take(i + 1) == v@.take(i as int).push(v@[i as int]));
        i += 1;
    }
    assert(v@.take(v.len() as int) == v@);
    r
}

/// A copy of the bytes in `v`.
pub fn copy_bytes(v: &[u8]) -> (r: Vec<u8>)
    ensures
        r@ == v@,
{
    let mut r: Vec<u8> = Vec::new();
    let mut i: usize = 0;
    while i < v.len()
        invariant
            i <= v.len(),
            r@ == v@.take(i as int),
        decreases v.len() - i,
    {
        r.push(v[i]);
        assert(v@.take(i + 1) == v@.take(i as int).push(v@[i as int]));
        i += 1;
    }
    assert(v@.take(v.len() as int) == v@);
    r
}

/// Whether `c` is white space.
pub fn is_ws_char(c: char) -> (b: bool)
    ensures
        b == is_ws(c),
{
    ('\u{9}' <= c && c <= '\u{d}') || c == ' ' || c == '\u{85}' || c == '\u{a0}' || c
        == '\u{1680}' || ('\u{2000}' <= c && c <= '\u{200a}') || c == '\u{2028}' || c
        == '\u{2029}' || c == '\u{202f}' || c == '\u{205f}' || c == '\u{3000}'
}

/// Whether `c` is an ASCII decimal digit.
pub fn is_digit_char(c: char) -> (b: bool)
    ensures
        b == is_digit(c),
{
    '0' <= c && c <= '9'
}

/// ASCII upper case of `c`.
pub fn upper_char(c: char) -> (r: char)
    ensures
        r == ascii_upper(c),
{
    if 'a' <= c && c <= 'z' {
        ((c as u8) - 32) as char
    } else {
        c
    }
}

pub proof fn lemma_trim_start_suffix(s: Seq<char>, i: int)
    requires
        0 <= i <= s.len(),
        forall|j: int| 0 <= j < i ==> is_ws(#[trigger] s[j]),
    ensures
        trim_start(s) == trim_start(s.subrange(i, s.len() as int)),
    decreases i,
{
    if i > 0 {
        assert(is_ws(s[0]));
        let t = s.drop_first();
        assert forall|j: int| 0 <= j < i - 1 implies is_ws(#[trigger] t[j]) by {
            assert(t[j] == s[j + 1]);
        }
        lemma_trim_start_suffix(t, i - 1);
        assert(t.subrange(i - 1, t.len() as int) == s.subrange(i, s.len() as int));
    } else {
        assert(s.subrange(0, s.len() as int) == s);
    }
}

pub proof fn lemma_trim_end_prefix(s: Seq<char>, k: int)
    requires
        0 <= k <= s.len(),
        forall|j: int| k <= j < s.len() ==> is_ws(#[trigger] s[j]),
    ensures
        trim_end(s) == trim_end(s.subrange(0, k)),
    decreases s.len() - k,
{
    if k < s.len() {
        assert(is_ws(s[s.len() - 1]));
        let t = s.drop_last();
        assert forall|j: int| k <= j < t.len() implies is_ws(#[trigger] t[j]) by {
            assert(t[j] == s[j]);
        }
        lemma_trim_end_prefix(t, k);
        assert(t.subrange(0, k) == s.subrange(0, k));
    } else {
        assert(s.subrange(0, s.len() as int) == s);
    }
}

/// The bounds `(a, b)` such that `v[a..b]` is `v` trimmed.
pub fn trim_bounds(v: &[char]) -> (r: (usize, usize))
    ensures
        r.0 <= r.1 <= v.len(),
        v@.subrange(r.0 as int, r.1 as int) == trim(v@),
{
    let mut a: usize = 0;
    while a < v.len() && is_ws_char(v[a])
        invariant
            a <= v.len(),
            forall|j: int| 0 <= j < a ==> is_ws(#[trigger] v@[j]),
        decreases v.len() - a,
    {
        a += 1;
    }
    proof {
        lemma_trim_start_suffix(v@, a as int);
    }
    let ghost t = v@.subrange(a as int, v.len() as int);
    assert(a == v.len() || !is_ws(t[0]));
    assert(trim_start(t) == t);
    let mut b: usize = v.len();
    while b > a && is_ws_char(v[b - 1])
        invariant
            a <= b <= v.len(),
            t == v@.subrange(a as int, v.len() as int),
            forall|j: int| b - a <= j < t.len() ==> is_ws(#[trigger] t[j]),
        decreases b,
    {
        assert(t[b - 1 - a] == v@[b - 1]);
        b -= 1;
    }
    proof {
        lemma_trim_end_prefix(t, (b - a) as int);
        let u = t.subrange(0, (b - a) as int);
        assert(u == v@.subrange(a as int, b as int));
        assert(u.len() == 0 || !is_ws(u.last())) by {
            if u.len() > 0 {
                assert(u.last() == v@[b - 1]);
            }
        }
        assert(trim_end(u) == u);
    }
    (a, b)
}

/// `v` trimmed of white space at both ends.
pub fn trim_chars(v: &[char]) -> (r: Vec<char>)
    ensures
        r@ == trim(v@),
{
    let (a, b) = trim_bounds(v);
    let mut r: Vec<char> = Vec::new();
    let mut i: usize = a;
    while i < b
        invariant
            a <= i <= b <= v.len(),
            r@ == v@.subrange(a as int, i as int),
        decreases b - i,
    {
        r.push(v[i]);
        assert(v@.subrange(a as int, i + 1) == v@.subrange(a as int, i as int).push(v@[i as int]));
        i += 1;
    }
    r
}

/// Whether `v` starts with `p`.
pub fn starts_with(v: &[char], p: &[char]) -> (b: bool)
    ensures
        b == has_prefix(v@, p@),
{
    if p.len() > v.len() {
        return false;
    }
    let mut i: usize = 0;
    while i < p.len()
        invariant
            p.len() <= v.len(),
            i <= p.len(),
            forall|j: int| 0 <= j < i ==> v@[j] == p@[j],
        decreases p.len() - i,
    {
        if v[i] != p[i] {
            assert(v@.take(p.len() as int)[i as int] != p@[i as int]);
            return false;
        }
        i += 1;
    }
    assert(v@.take(p.len() as int) =~= p@);
    true
}

/// Whether `v` starts with `p` when letters of `v` are taken in ASCII upper case.
pub fn starts_with_ci(v: &[char], p: &[char]) -> (b: bool)
    ensures
        b == has_prefix_ci(v@, p@),
{
    if p.len() > v.len() {
        return false;
    }
    let mut i: usize = 0;
    while i < p.len()
        invariant
            p.len() <= v.len(),
            i <= p.len(),
            forall|j: int| 0 <= j < i ==> ascii_upper(#[trigger] v@[j]) == p@[j],
        decreases p.len() - i,
    {
        if upper_char(v[i]) != p[i] {
            return false;
        }
        i += 1;
    }
    true
}

/// The characters of `v` from index `from` on.
pub fn suffix_from(v: &[char], from: usize) -> (r: Vec<char>)
    requires
        from <= v.len(),
    ensures
        r@ == v@.subrange(from as int, v.len() as int),
{
    slice_range(v, from, v.len())
}

/// The characters of `a` followed by those of `b`.
pub fn join_chars(a: &[char], b: &[char]) -> (r: Vec<char>)
    ensures
        r@ == a@ + b@,
{
    let mut r: Vec<char> = Vec::new();
    let mut i: usize = 0;
    while i < a.len()
        invariant
            i <= a.len(),
            r@ == a@.take(i as int),
        decreases a.len() - i,
    {
        r.push(a[i]);
        assert(a@.take(i + 1) == a@.take(i as int).push(a@[i as int]));
        i += 1;
    }
    let mut j: usize = 0;
    while j < b.len()
        invariant
            j <= b.len(),
            r@ == a@ + b@.take(j as int),
        decreases b.len() - j,
    {
        r.push(b[j]);
        assert(b@.take(j + 1) == b@.take(j as int).push(b@[j as int]));
        assert(a@ + b@.take(j + 1) == (a@ + b@.take(j as int)).push(b@[j as int]));
        j += 1;
    }
    assert(a@.take(a.len() as int) == a@);
    assert(b@.take(b.len() as int) == b@);
    r
}

/// The characters `v[a..b]`.
pub fn slice_range(v: &[char], a: usize, b: usize) -> (r: Vec<char>)
    requires
        a <= b <= v.len(),
    ensures
        r@ == v@.subrange(a as int, b as int),
{
    let mut r: Vec<char> = Vec::new();
    let mut i: usize = a;
    while i < b
        invariant
            a <= i <= b <= v.len(),
            r@ == v@.subrange(a as int, i as int),
        decreases b - i,
    {
        r.push(v[i]);
        assert(v@.subrange(a as int, i + 1) == v@.subrange(a as int, i as int).push(v@[i as int]));
        i += 1;
    }
    r
}

/// The texts held by a sequence of character vectors.
pub open spec fn views(r: Seq<Vec<char>>) -> Seq<Seq<char>> {
    r.map_values(|x: Vec<char>| x@)
}

/// The pieces of `v` between occurrences of `sep`.
pub fn split_chars(v: &[char], sep: char) -> (r: Vec<Vec<char>>)
    ensures
        views(r@) == split_on(v@, sep),
        r.len() >= 1,
{
    let mut r: Vec<Vec<char>> = Vec::new();
    let mut cur: Vec<char> = Vec::new();
    let mut i: usize = 0;
    while i < v.len()
        invariant
            i <= v.len(),
            views(r@).push(cur@) == split_on(v@.take(i as int), sep),
        decreases v.len() - i,
    {
        let ghost pre = v@.take(i as int);
        assert(v@.take(i + 1).drop_last() == pre);
        let ghost old_r = r@;
        if v[i] == sep {
            let ghost done_v = cur@;
            let done = cur;
            r.push(done);
            cur = Vec::new();
            assert(views(r@) =~= views(old_r).push(done_v));
            assert(views(r@) =~= split_on(pre, sep));
        } else {
            cur.push(v[i]);
            assert(views(r@).push(cur@) =~= split_on(pre, sep).update(
                split_on(pre, sep).len() - 1,
                split_on(pre, sep).last().push(v@[i as int]),
            ));
        }
        i += 1;
    }
    assert(v@.take(v.len() as int) == v@);
    let ghost old_r = r@;
    let ghost last = cur@;
    r.push(cur);
    assert(views(r@) =~= views(old_r).push(last));
    r
}

/// Reads `v` as an `i32` (`str::parse::<i32>`).
pub fn parse_i32_chars(v: &[char]) -> (r: Option<i32>)
    ensures
        r == spec_parse_i32(v@),
{
    if v.len() == 0 {
        return None;
    }
    let neg = v[0] == '-';
    let start: usize = if v[0] == '-' || v[0] == '+' { 1 } else { 0 };
    if start == v.len() {
        assert(v@.drop_first().len() == 0);
        return None;
    }
    let ghost d = v@.subrange(start as int, v.len() as int);
    let mut acc: i64 = 0;
    let mut big = false;
    let mut i: usize = start;
    while i < v.len()
        invariant
            start <= i <= v.len(),
            start == 0 || start == 1,
            v.len() > 0,
            start == 1 <==> (v@[0] == '-' || v@[0] == '+'),
            neg == (v@[0] == '-'),
            d == v@.subrange(start as int, v.len() as int),
            all_digits(v@.subrange(start as int, i as int)),
            !big ==> acc == digits_value(v@.subrange(start as int, i as int)) && 0 <= acc
                <= 0x1_0000_0000,
            big ==> digits_value(v@.subrange(start as int, i as int)) > 0x1_0000_0000,
        decreases v.len() - i,
    {
        let c = v[i];
        if !is_digit_char(c) {
            assert(!all_digits(d)) by {
                assert(d[i - start] == c);
            }
            if start == 1 {
                assert(v@.drop_first() =~= d);
            } else {
                assert(v@ =~= d);
            }
            return None;
        }
        let ghost pre = v@.subrange(start as int, i as int);
        let ghost nxt = v@.subrange(start as int, i + 1);
        assert(nxt.drop_last() == pre);
        assert(nxt.last() == c);
        assert(all_digits(nxt)) by {
            assert forall|j: int| 0 <= j < nxt.len() implies is_digit(#[trigger] nxt[j]) by {
                if j < pre.len() {
                    assert(nxt[j] == pre[j]);
                }
            }
        }
        proof {
            lemma_digits_value_nonneg(pre);
        }
        if !big {
            let dv = (c as u32 - '0' as u32) as i64;
            let n = acc * 10 + dv;
            if n > 0x1_0000_0000 {
                big = true;
            } else {
                acc = n;
            }
        }
        i += 1;
    }
    assert(v@.subrange(start as int, v.len() as int) == d);
    if start == 1 {
        assert(v@.drop_first() =~= d);
    } else {
        assert(d =~= v@);
    }
    if big {
        return None;
    }
    if neg {
        if acc > 0x8000_0000 {
            None
        } else {
            Some((0 - acc) as i32)
        }
    } else {
        if acc > 0x7fff_ffff {
            None
        } else {
            Some(acc as i32)
        }
    }
}

} // verus!

verus! {

/// Decimal text as this library reads it: an optional sign, then digits with at most
/// one `.`, with at least one digit. The result is the sign (`true` for `-`), the
/// digits before the point and the digits after it.
pub open spec fn decimal_text(s: Seq<char>) -> Option<(bool, Seq<char>, Seq<char>)> {
    let signed = s.len() > 0 && (s[0] == '+' || s[0] == '-');
    let neg = s.len() > 0 && s[0] == '-';
    let body = if signed { s.drop_first() } else { s };
    let parts = split_on(body, '.');
    if parts.len() == 1 && parts[0].len() > 0 && all_digits(parts[0]) {
        Some((neg, parts[0], Seq::<char>::empty()))
    } else if parts.len() == 2 && all_digits(parts[0]) && all_digits(parts[1]) && parts[0].len()
        + parts[1].len() > 0 {
        Some((neg, parts[0], parts[1]))
    } else {
        None
    }
}

/// The smaller of two integers.
pub open spec fn min_int(a: int, b: int) -> int {
    if a <= b {
        a
    } else {
        b
    }
}

/// The larger of two integers.
pub open spec fn max_int(a: int, b: int) -> int {
    if a >= b {
        a
    } else {
        b
    }
}

/// The bound at which digit values are capped while reading them.
pub open spec fn value_cap() -> int {
    0x1_0000_0000
}

pub proof fn lemma_all_digits_take(d: Seq<char>, i: int)
    requires
        all_digits(d),
        0 <= i <= d.len(),
    ensures
        all_digits(d.take(i)),
{
    assert forall|j: int| 0 <= j < d.take(i).len() implies is_digit(#[trigger] d.take(i)[j]) by {
        assert(d.take(i)[j] == d[j]);
    }
}

/// The value of the digits `d`, capped at `value_cap()`.
pub fn digits_value_capped(d: &[char]) -> (r: u64)
    requires
        all_digits(d@),
    ensures
        r == min_int(digits_value(d@), value_cap()),
{
    let mut acc: u64 = 0;
    let mut i: usize = 0;
    while i < d.len()
        invariant
            i <= d.len(),
            all_digits(d@),
            acc == min_int(digits_value(d@.take(i as int)), value_cap()),
        decreases d.len() - i,
    {
        let ghost pre = d@.take(i as int);
        let ghost nxt = d@.take(i + 1);
        assert(nxt.drop_last() == pre);
        assert(nxt.last() == d@[i as int]);
        assert(is_digit(d@[i as int]));
        proof {
            lemma_all_digits_take(d@, i as int);
            lemma_digits_value_nonneg(pre);
        }
        let dv = (d[i] as u32 - '0' as u32) as u64;
        if acc < 0x1_0000_0000 {
            let n = acc * 10 + dv;
            acc = if n > 0x1_0000_0000 { 0x1_0000_0000 } else { n };
        }
        i += 1;
    }
    assert(d@.take(d.len() as int) == d@);
    acc
}

/// Whether every character of `v` is a decimal digit.
pub fn all_digit_chars(v: &[char]) -> (b: bool)
    ensures
        b == all_digits(v@),
{
    let mut i: usize = 0;
    while i < v.len()
        invariant
            i <= v.len(),
            forall|j: int| 0 <= j < i ==> is_digit(#[trigger] v@[j]),
        decreases v.len() - i,
    {
        if !is_digit_char(v[i]) {
            return false;
        }
        i += 1;
    }
    true
}

/// Splits decimal text into its sign, integer digits and fraction digits.
pub fn decimal_parts(v: &[char]) -> (r: Option<(bool, Vec<char>, Vec<char>)>)
    ensures
        match r {
            Some((neg, i, f)) => decimal_text(v@) == Some((neg, i@, f@)),
            None => decimal_text(v@) is None,
        },
{
    let signed = v.len() > 0 && (v[0] == '+' || v[0] == '-');
    let neg = v.len() > 0 && v[0] == '-';
    let body = if signed {
        suffix_from(v, 1)
    } else {
        copy_chars(v)
    };
    assert(signed ==> body@ =~= v@.drop_first());
    let parts = split_chars(&body, '.');
    assert(views(parts@)[0] == parts@[0]@);
    if parts.len() == 1 && parts[0].len() > 0 && all_digit_chars(&parts[0]) {
        let i = copy_chars(&parts[0]);
        return Some((neg, i, Vec::new()));
    }
    if parts.len() == 2 {
        assert(views(parts@)[1] == parts@[1]@);
        if all_digit_chars(&parts[0]) && all_digit_chars(&parts[1]) && (parts[0].len() > 0
            || parts[1].len() > 0) {
            let i = copy_chars(&parts[0]);
            let f = copy_chars(&parts[1]);
            return Some((neg, i, f));
        }
    }
    None
}

} // verus!

verus! {

/// The index of the first occurrence of `c` in `s`.
pub open spec fn first_index(s: Seq<char>, c: char) -> Option<int> {
    if exists|i: int| 0 <= i < s.len() && s[i] == c {
        Some(choose|i: int| 0 <= i < s.len() && s[i] == c && forall|j: int| 0 <= j < i ==> s[j] != c)
    } else {
        None
    }
}

pub proof fn lemma_first_index(s: Seq<char>, c: char, i: int)
    requires
        0 <= i < s.len(),
        s[i] == c,
        forall|j: int| 0 <= j < i ==> s[j] != c,
    ensures
        first_index(s, c) == Some(i),
{
    let k = choose|k: int| 0 <= k < s.len() && s[k] == c && forall|j: int| 0 <= j < k ==> s[j] != c;
    assert(0 <= k < s.len() && s[k] == c && forall|j: int| 0 <= j < k ==> s[j] != c);
    if k < i {
        assert(s[k] != c);
    } else if k > i {
        assert(s[i] != c);
    }
}

/// The index of the first `c` in `v`, if any.
pub fn find_char(v: &[char], c: char) -> (r: Option<usize>)
    ensures
        match r {
            Some(i) => i < v.len() && v@[i as int] == c && first_index(v@, c) == Some(i as int)
                && forall|j: int| 0 <= j < i ==> v@[j] != c,
            None => first_index(v@, c) is None && forall|j: int| 0 <= j < v.len() ==> v@[j] != c,
        },
{
    let mut i: usize = 0;
    while i < v.len()
        invariant
            i <= v.len(),
            forall|j: int| 0 <= j < i ==> v@[j] != c,
        decreases v.len() - i,
    {
        if v[i] == c {
            proof {
                lemma_first_index(v@, c, i as int);
            }
            return Some(i);
        }
        i += 1;
    }
    None
}

/// The text of `s` after the byte offset `k`, which must fall between characters.
pub fn str_suffix(s: &str, k: usize) -> (r: &str)
    requires
        vstd::utf8::is_char_boundary(s.spec_bytes(), k as int),
    ensures
        r@ == vstd::utf8::decode_utf8(s.spec_bytes().subrange(k as int, s.spec_bytes().len() as int)),
{
    proof {
        vstd::utf8::encode_utf8_valid_utf8(s@);
    }
    let (_a, b) = s.split_at(k);
    proof {
        vstd::utf8::encode_utf8_decode_utf8(b@);
    }
    b
}

/// What `String::from_utf8_lossy` makes of `bytes`: the text they encode, with
/// each invalid sequence replaced by U+FFFD.
pub uninterp spec fn lossy_utf8(bytes: Seq<u8>) -> Seq<char>;

/// The text of `bytes` (`String::from_utf8_lossy`). The contract names the
/// result, and states what the documentation promises for valid UTF-8: the
/// text the bytes encode, unchanged.
#[verifier::external_body]
pub(crate) fn utf8_lossy(bytes: &[u8]) -> (s: String)
    ensures
        s@ == lossy_utf8(bytes@),
        vstd::utf8::valid_utf8(bytes@) ==> s@ == vstd::utf8::decode_utf8(bytes@),
{
    String::from_utf8_lossy(bytes).into_owned()
}

/// `v` without its leading white space.
pub fn trim_start_chars(v: &[char]) -> (r: Vec<char>)
    ensures
        r@ == trim_start(v@),
{
    let mut a: usize = 0;
    while a < v.len() && is_ws_char(v[a])
        invariant
            a <= v.len(),
            forall|j: int| 0 <= j < a ==> is_ws(#[trigger] v@[j]),
        decreases v.len() - a,
    {
        a += 1;
    }
    proof {
        lemma_trim_start_suffix(v@, a as int);
    }
    suffix_from(v, a)
}

/// The decimal digits of `n`.
pub open spec fn decimal(n: nat) -> Seq<char>
    decreases n,
{
    if n < 10 {
        seq![(('0' as int) + n) as char]
    } else {
        decimal(n / 10) + seq![(('0' as int) + n % 10) as char]
    }
}

/// The decimal digits of `n` as a string.
pub fn decimal_string(n: usize) -> (s: String)
    ensures
        s@ == decimal(n as nat),
    decreases n,
{
    if n < 10 {
        let mut s = String::new();
        push_char(&mut s, ((48 + n) as u8) as char);
        assert(s@ =~= decimal(n as nat));
        s
    } else {
        let mut s = decimal_string(n / 10);
        push_char(&mut s, ((48 + n % 10) as u8) as char);
        assert(s@ =~= decimal(n as nat));
        s
    }
}

} // verus!
