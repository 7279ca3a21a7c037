//! Data Matrix (ECC 200): the symbol comes from the `datamatrix` crate; this
//! module draws it.
use vstd::prelude::*;
use crate::barcodes::bit_matrix::{BitMatrix, at_least_one};
use vstd::utf8::encode_utf8;

verus! {

/// The Data Matrix symbol that the `datamatrix` crate builds for `data` with
/// its default list of symbol sizes: width and height in modules and the
/// positions (column, row) of the dark modules, or the debug text of its error.
pub uninterp spec fn datamatrix_symbol(data: Seq<u8>) -> Result<
    (nat, nat, Seq<(usize, usize)>),
    Seq<char>,
>;

/// `datamatrix::DataMatrix::encode` with `SymbolList::default()`, then the
/// bitmap's `width`, `height` and `pixels`. Claimed: the outcome is
/// [`datamatrix_symbol`] of the data, and a symbol is at most 144 modules
/// each way (the largest square size; the default list leaves out the DMRE
/// sizes).
#[verifier::external_body]
fn datamatrix_modules(data: &[u8]) -> (r: Result<(usize, usize, Vec<(usize, usize)>), String>)
    ensures
        match r {
            Ok((w, h, p)) => datamatrix_symbol(data@) == Ok::<
                (nat, nat, Seq<(usize, usize)>),
                Seq<char>,
            >((w as nat, h as nat, p@)) && w <= 144 && h <= 144,
            Err(e) => datamatrix_symbol(data@) == Err::<(nat, nat, Seq<(usize, usize)>), Seq<char>>(
                e@,
            ),
        },
{
    match datamatrix::DataMatrix::encode(data, datamatrix::SymbolList::default()) {
        Ok(code) => {
            let bitmap = code.bitmap();
            Ok((bitmap.width(), bitmap.height(), bitmap.pixels().collect()))
        },
        Err(e) => Err(format!("{:?}", e)),
    }
}

/// Module (`c`, `r`) is among the dark `pixels`.
pub open spec fn dark_module(pixels: Seq<(usize, usize)>, c: int, r: int) -> bool {
    exists|k: int| 0 <= k < pixels.len() && #[trigger] pixels[k].0 == c && pixels[k].1 == r
}

/// Draws a `width` by `height` symbol whose dark modules are `pixels` at
/// `magnification` pixels per module (at least 1), without a quiet zone.
pub fn datamatrix_image(
    width: usize,
    height: usize,
    pixels: &Vec<(usize, usize)>,
    magnification: i32,
) -> (img: BitMatrix)
    requires
        width * at_least_one(magnification) * (height * at_least_one(magnification)) <= usize::MAX,
        width * at_least_one(magnification) <= usize::MAX,
        height * at_least_one(magnification) <= usize::MAX,
    ensures
        img.wf(),
        img.spec_width() == width * at_least_one(magnification),
        img.spec_height() == height * at_least_one(magnification),
        forall|x: int, y: int|
            0 <= x < img.spec_width() && 0 <= y < img.spec_height() ==> #[trigger] img.bit(x, y)
                == dark_module(pixels@, x / at_least_one(magnification), y / at_least_one(magnification)),
{
    let mag: usize = if magnification > 1 { magnification as usize } else { 1 };
    proof {
        assert(width * height <= usize::MAX) by (nonlinear_arith)
            requires
                width * mag * (height * mag) <= usize::MAX,
                mag >= 1,
        ;
    }
    let mut grid = BitMatrix::new(width, height);
    proof {
        assert forall|c: int, r: int| #[trigger] grid.bit(c, r) == false by {
            if 0 <= c < width && 0 <= r < height {
                crate::barcodes::bit_matrix::lemma_grid_cell(width as int, height as int, c, r);
            }
        }
    }
    let mut k: usize = 0;
    while k < pixels.len()
        invariant
            k <= pixels@.len(),
            grid.wf(),
            grid.spec_width() == width,
            grid.spec_height() == height,
            forall|c: int, r: int|
                #[trigger] grid.bit(c, r) == (0 <= c < width && 0 <= r < height && exists|j: int|
                    0 <= j < k && #[trigger] pixels@[j].0 == c && pixels@[j].1 == r),
        decreases pixels@.len() - k,
    {
        let (c, r) = pixels[k];
        grid.set(c, r, true);
        proof {
            assert forall|a: int, b: int|
                #[trigger] grid.bit(a, b) == (0 <= a < width && 0 <= b < height && exists|j: int|
                    0 <= j < k + 1 && #[trigger] pixels@[j].0 == a && pixels@[j].1 == b) by {
                if a == c && b == r {
                    assert(pixels@[k as int].0 == a && pixels@[k as int].1 == b);
                }
                if exists|j: int| 0 <= j < k + 1 && #[trigger] pixels@[j].0 == a && pixels@[j].1 == b {
                    let j = choose|j: int| 0 <= j < k + 1 && #[trigger] pixels@[j].0 == a && pixels@[j].1 == b;
                    if j < k {
                        assert(0 <= j < k && pixels@[j].0 == a && pixels@[j].1 == b);
                    }
                }
            }
        }
        k += 1;
    }
    proof {
        assert(grid.spec_width() * mag * (grid.spec_height() * mag) <= usize::MAX);
    }
    let img = grid.to_image(mag, mag);
    proof {
        assert forall|x: int, y: int|
            0 <= x < img.spec_width() && 0 <= y < img.spec_height() implies #[trigger] img.bit(x, y)
                == dark_module(pixels@, x / mag as int, y / mag as int) by {
            let m = mag as int;
            vstd::arithmetic::div_mod::lemma_multiply_divide_lt(x, m, width as int);
            vstd::arithmetic::div_mod::lemma_multiply_divide_lt(y, m, height as int);
            vstd::arithmetic::div_mod::lemma_div_pos_is_pos(x, m);
            vstd::arithmetic::div_mod::lemma_div_pos_is_pos(y, m);
            assert(m * (width as int) == (width as int) * m) by (nonlinear_arith);
            assert(m * (height as int) == (height as int) * m) by (nonlinear_arith);
        }
    }
    img
}

/// Data Matrix for `content` (its UTF-8 bytes) drawn by
/// [`datamatrix_image`]. The row and column counts of `^BX` are accepted and
/// leave the symbol size to the encoder. Empty content, and any error of the
/// encoder, is an error.
pub fn encode(content: &str, magnification: i32, rows: i32, columns: i32) -> (r: Result<
    BitMatrix,
    String,
>)
    requires
        content@.len() > 0 ==> 144 * at_least_one(magnification) * (144 * at_least_one(magnification)) <= usize::MAX,
    ensures
        content@.len() == 0 ==> (r matches Err(e) && e@ == "DataMatrix: empty content"@),
        content@.len() > 0 ==> match datamatrix_symbol(encode_utf8(content@)) {
            Ok((w, h, p)) => (r matches Ok(img) && img.wf() && img.spec_width() == w
                * at_least_one(magnification) && img.spec_height() == h * at_least_one(magnification)
                && forall|x: int, y: int|
                0 <= x < img.spec_width() && 0 <= y < img.spec_height() ==> #[trigger] img.bit(x, y)
                    == dark_module(p, x / at_least_one(magnification), y / at_least_one(magnification))),
            Err(e) => r matches Err(e2) && e2@ == "DataMatrix encoding failed: "@ + e,
        },
{
    if content.unicode_len() == 0 {
        return Err("DataMatrix: empty content".to_owned());
    }
    match datamatrix_modules(content.as_bytes()) {
        Ok((w, h, p)) => {
            proof {
                let k = at_least_one(magnification);
                assert(w * k * (h * k) <= 144 * k * (144 * k) && w * k <= 144 * k * (144 * k) && h * k
                    <= 144 * k * (144 * k)) by (nonlinear_arith)
                    requires
                        w <= 144,
                        h <= 144,
                        k >= 1,
                ;
            }
            Ok(datamatrix_image(w, h, &p, magnification))
        },
        Err(e) => {
            let mut msg = "DataMatrix encoding failed: ".to_owned();
            msg.append(e.as_str());
            Err(msg)
        },
    }
}

} // verus!
