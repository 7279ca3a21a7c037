//! MaxiCode drawn as a 30 by 33 grid of round modules about a bullseye.
use vstd::prelude::*;
use crate::barcodes::bit_matrix::{BitMatrix, in_annulus};
use vstd::utf8::encode_utf8;

verus! {

/// Width of the drawing: 30 modules of 8 pixels and half a module each side.
pub const MAXICODE_WIDTH: usize = 248;

/// Height of the drawing: 33 rows of 7 pixels and half a row each side.
pub const MAXICODE_HEIGHT: usize = 238;

/// The module at row `r`, column `c` lies under the bullseye and carries no
/// data.
pub open spec fn maxicode_skipped(r: int, c: int) -> bool {
    12 <= r <= 20 && 11 <= c <= 19
}

/// How many modules under the bullseye come before (`r`, `c`) row by row.
pub open spec fn skipped_before(r: int, c: int) -> int {
    if r < 12 {
        0
    } else if r <= 20 {
        (r - 12) * 9 + if c < 11 {
            0
        } else if c > 20 {
            9
        } else {
            c - 11
        }
    } else {
        81
    }
}

/// The place of module (`r`, `c`) among the modules that carry data.
pub open spec fn module_index(r: int, c: int) -> int {
    r * 30 + c - skipped_before(r, c)
}

/// Bit `k` (0 the highest) of the low six bits of `b`.
pub open spec fn six_bit(b: u8, k: int) -> bool {
    let d: int = if k == 0 {
        32
    } else if k == 1 {
        16
    } else if k == 2 {
        8
    } else if k == 3 {
        4
    } else if k == 4 {
        2
    } else {
        1
    };
    (b as int / d) % 2 == 1
}

/// The six bits of a byte, highest first, spell its low six bits.
pub proof fn lemma_six_bits_spell_byte(b: u8)
    ensures
        (if six_bit(b, 0) { 32int } else { 0int }) + (if six_bit(b, 1) { 16int } else { 0int })
            + (if six_bit(b, 2) { 8int } else { 0int }) + (if six_bit(b, 3) { 4int } else { 0int })
            + (if six_bit(b, 4) { 2int } else { 0int }) + (if six_bit(b, 5) { 1int } else { 0int })
            == b % 64,
{
    assert((if six_bit(b, 0) { 32int } else { 0int }) + (if six_bit(b, 1) { 16int } else { 0int })
        + (if six_bit(b, 2) { 8int } else { 0int }) + (if six_bit(b, 3) { 4int } else { 0int })
        + (if six_bit(b, 4) { 2int } else { 0int }) + (if six_bit(b, 5) { 1int } else { 0int })
        == b % 64) by (bit_vector);
}

/// Data goes into the modules row by row, left to right, skipping the nine
/// by nine block around the centre (rows 12 to 20, columns 11 to 19, the
/// modules within four of row 16 and column 15): the first module takes
/// place 0, each next data module the next place, and the last of the 909
/// data modules place 908.
pub proof fn lemma_module_order(r: int, c: int)
    requires
        0 <= r < 33,
        0 <= c < 30,
    ensures
        maxicode_skipped(r, c) == (-5 < r - 16 < 5 && -5 < c - 15 < 5),
        module_index(0, 0) == 0,
        module_index(32, 29) == 908,
        c < 29 && !maxicode_skipped(r, c) && !maxicode_skipped(r, c + 1) ==> module_index(r, c + 1)
            == module_index(r, c) + 1,
        12 <= r <= 20 ==> module_index(r, 20) == module_index(r, 10) + 1,
        r < 32 ==> module_index(r + 1, 0) == module_index(r, 29) + 1,
{
}

/// Whether module (`r`, `c`) is dark: six bits from each byte of the data in
/// turn, then a filler pattern where `r + c` is a multiple of three.
pub open spec fn module_value(bytes: Seq<u8>, r: int, c: int) -> bool {
    let i = module_index(r, c);
    if i < 6 * bytes.len() {
        six_bit(bytes[i / 6], i % 6)
    } else {
        (r + c) % 3 == 0
    }
}

/// Horizontal centre of module (`r`, `c`): odd rows are shifted half a module.
pub open spec fn module_x(r: int, c: int) -> int {
    8 * c + (if r % 2 == 1 {
        4int
    } else {
        0int
    }) + 4
}

/// Vertical centre of a module of row `r`.
pub open spec fn module_y(r: int) -> int {
    7 * r + 3
}

/// Pixel (`x`, `y`) lies in the dark module (`r`, `c`), a disc of radius 4.
pub open spec fn module_covers(bytes: Seq<u8>, r: int, c: int, x: int, y: int) -> bool {
    &&& 0 <= r < 33
    &&& 0 <= c < 30
    &&& !maxicode_skipped(r, c)
    &&& module_value(bytes, r, c)
    &&& in_annulus(x, y, module_x(r, c), module_y(r), 0, 4)
}

/// Pixel (`x`, `y`) lies on one of the three rings of the bullseye.
pub open spec fn in_bullseye(x: int, y: int) -> bool {
    ||| in_annulus(x, y, 124, 119, 18, 22)
    ||| in_annulus(x, y, 124, 119, 10, 14)
    ||| in_annulus(x, y, 124, 119, 2, 6)
}

/// Pixel (`x`, `y`) lies in a dark module among the first `n`, row by row.
pub open spec fn covered_before(bytes: Seq<u8>, n: int, x: int, y: int) -> bool {
    exists|r: int, c: int| 0 <= r * 30 + c < n && #[trigger] module_covers(bytes, r, c, x, y)
}

/// Pixel (`x`, `y`) of the MaxiCode drawing for `bytes` is dark.
pub open spec fn maxicode_dark(bytes: Seq<u8>, x: int, y: int) -> bool {
    in_bullseye(x, y) || covered_before(bytes, 990, x, y)
}

proof fn lemma_cover_step(bytes: Seq<u8>, row: int, col: int, x: int, y: int)
    requires
        0 <= row < 33,
        0 <= col < 30,
    ensures
        covered_before(bytes, row * 30 + col + 1, x, y) == (covered_before(
            bytes,
            row * 30 + col,
            x,
            y,
        ) || module_covers(bytes, row, col, x, y)),
{
    if covered_before(bytes, row * 30 + col + 1, x, y) {
        let (r, c) = choose|r: int, c: int|
            0 <= r * 30 + c < row * 30 + col + 1 && #[trigger] module_covers(bytes, r, c, x, y);
        if r * 30 + c < row * 30 + col {
        } else {
            assert(r == row && c == col);
        }
    }
    if module_covers(bytes, row, col, x, y) {
        assert(0 <= row * 30 + col < row * 30 + col + 1);
    }
    if covered_before(bytes, row * 30 + col, x, y) {
        let (r, c) = choose|r: int, c: int|
            0 <= r * 30 + c < row * 30 + col && #[trigger] module_covers(bytes, r, c, x, y);
        assert(0 <= r * 30 + c < row * 30 + col + 1);
    }
}

/// Bit `k` of the low six bits of `b`, as `module_value` reads it.
fn six_bit_of(b: u8, k: usize) -> (v: bool)
    requires
        k < 6,
    ensures
        v == six_bit(b, k as int),
{
    let d: u8 = if k == 0 {
        32
    } else if k == 1 {
        16
    } else if k == 2 {
        8
    } else if k == 3 {
        4
    } else if k == 4 {
        2
    } else {
        1
    };
    (b / d) % 2 == 1
}

/// Draws the data modules onto `img`, which holds the bullseye.
fn paint_modules(img: &mut BitMatrix, bytes: &[u8])
    requires
        old(img).wf(),
        old(img).spec_width() == MAXICODE_WIDTH,
        old(img).spec_height() == MAXICODE_HEIGHT,
        forall|x: int, y: int|
            0 <= x < MAXICODE_WIDTH && 0 <= y < MAXICODE_HEIGHT ==> #[trigger] old(img).bit(x, y)
                == in_bullseye(x, y),
    ensures
        final(img).wf(),
        final(img).spec_width() == MAXICODE_WIDTH,
        final(img).spec_height() == MAXICODE_HEIGHT,
        forall|x: int, y: int|
            0 <= x < MAXICODE_WIDTH && 0 <= y < MAXICODE_HEIGHT ==> #[trigger] final(img).bit(x, y)
                == maxicode_dark(bytes@, x, y),
{
    let n = bytes.len();
    let mut idx: usize = 0;
    let mut row: usize = 0;
    proof {
        assert forall|x: int, y: int|
            0 <= x < MAXICODE_WIDTH && 0 <= y < MAXICODE_HEIGHT implies #[trigger] img.bit(x, y)
                == (in_bullseye(x, y) || covered_before(bytes@, 0, x, y)) by {
            if covered_before(bytes@, 0, x, y) {
                let (r, c) = choose|r: int, c: int|
                    0 <= r * 30 + c < 0 && #[trigger] module_covers(bytes@, r, c, x, y);
            }
        }
    }
    while row < 33
        invariant
            row <= 33,
            n == bytes@.len(),
            idx == module_index(row as int, 0),
            img.wf(),
            img.spec_width() == MAXICODE_WIDTH,
            img.spec_height() == MAXICODE_HEIGHT,
            forall|x: int, y: int|
                0 <= x < MAXICODE_WIDTH && 0 <= y < MAXICODE_HEIGHT ==> #[trigger] img.bit(x, y)
                    == (in_bullseye(x, y) || covered_before(bytes@, row * 30, x, y)),
        decreases 33 - row,
    {
        let mut col: usize = 0;
        while col < 30
            invariant
                row < 33,
                col <= 30,
                n == bytes@.len(),
                idx == module_index(row as int, col as int),
                idx <= row * 30 + col,
                img.wf(),
                img.spec_width() == MAXICODE_WIDTH,
                img.spec_height() == MAXICODE_HEIGHT,
                forall|x: int, y: int|
                    0 <= x < MAXICODE_WIDTH && 0 <= y < MAXICODE_HEIGHT ==> #[trigger] img.bit(x, y)
                        == (in_bullseye(x, y) || covered_before(bytes@, row * 30 + col, x, y)),
            decreases 30 - col,
        {
            let skipped = 12 <= row && row <= 20 && 11 <= col && col <= 19;
            if skipped {
                proof {
                    assert forall|x: int, y: int|
                        0 <= x < MAXICODE_WIDTH && 0 <= y < MAXICODE_HEIGHT implies #[trigger] img.bit(
                            x,
                            y,
                        ) == (in_bullseye(x, y) || covered_before(bytes@, row * 30 + col + 1, x, y)) by {
                        lemma_cover_step(bytes@, row as int, col as int, x, y);
                    }
                }
            } else {
                let val = if idx / 6 < n {
                    six_bit_of(bytes[idx / 6], idx % 6)
                } else {
                    (row + col) % 3 == 0
                };
                proof {
                    assert(val == module_value(bytes@, row as int, col as int));
                }
                if val {
                    let off: i64 = if row % 2 == 1 { 4 } else { 0 };
                    let px: i64 = (col as i64) * 8 + off + 4;
                    let py: i64 = (row as i64) * 7 + 3;
                    let ghost before = *img;
                    img.paint_annulus(px, py, 0, 4);
                    proof {
                        assert(px == module_x(row as int, col as int));
                        assert(py == module_y(row as int));
                        assert forall|x: int, y: int|
                            0 <= x < MAXICODE_WIDTH && 0 <= y < MAXICODE_HEIGHT implies #[trigger] img.bit(
                                x,
                                y,
                            ) == (in_bullseye(x, y) || covered_before(bytes@, row * 30 + col + 1, x, y)) by {
                            lemma_cover_step(bytes@, row as int, col as int, x, y);
                            assert(before.bit(x, y) == (in_bullseye(x, y) || covered_before(bytes@, row * 30 + col, x, y)));
                        }
                    }
                } else {
                    proof {
                        assert forall|x: int, y: int|
                            0 <= x < MAXICODE_WIDTH && 0 <= y < MAXICODE_HEIGHT implies #[trigger] img.bit(
                                x,
                                y,
                            ) == (in_bullseye(x, y) || covered_before(bytes@, row * 30 + col + 1, x, y)) by {
                            lemma_cover_step(bytes@, row as int, col as int, x, y);
                        }
                    }
                }
                idx += 1;
            }
            col += 1;
        }
        row += 1;
    }
}

/// MaxiCode for `content`: the bullseye and the data modules (see
/// [`maxicode_dark`]). Empty content is an error.
pub fn encode(content: &str) -> (r: Result<BitMatrix, String>)
    ensures
        content@.len() == 0 ==> (r matches Err(e) && e@ == "MaxiCode: empty content"@),
        content@.len() > 0 ==> (r matches Ok(img) && img.wf() && img.spec_width() == MAXICODE_WIDTH
            && img.spec_height() == MAXICODE_HEIGHT && forall|x: int, y: int|
            0 <= x < MAXICODE_WIDTH && 0 <= y < MAXICODE_HEIGHT ==> #[trigger] img.bit(x, y)
                == maxicode_dark(encode_utf8(content@), x, y)),
{
    if content.unicode_len() == 0 {
        return Err("MaxiCode: empty content".to_owned());
    }
    let bytes = content.as_bytes();
    let mut img = BitMatrix::new(MAXICODE_WIDTH, MAXICODE_HEIGHT);
    proof {
        assert forall|x: int, y: int| #[trigger] img.bit(x, y) == false by {
            if 0 <= x < MAXICODE_WIDTH && 0 <= y < MAXICODE_HEIGHT {
                crate::barcodes::bit_matrix::lemma_grid_cell(248, 238, x, y);
            }
        }
    }
    img.paint_annulus(124, 119, 18, 22);
    img.paint_annulus(124, 119, 10, 14);
    img.paint_annulus(124, 119, 2, 6);
    paint_modules(&mut img, bytes);
    Ok(img)
}

} // verus!
