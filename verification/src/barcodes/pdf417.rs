//! PDF417: the size rules that come before encoding, and the drawing of an
//! encoded symbol with its rows stretched to the requested height.
use vstd::prelude::*;
use crate::barcodes::bit_matrix::BitMatrix;
use vstd::string::StringExecFns;
use rxing::pdf417::encoder::pdf_417_high_level_encoder::encodeHighLevel;
use rxing::pdf417::encoder::{Compaction, Dimensions};
use rxing::{BarcodeFormat, EncodeHintValue, EncodeHints, MultiFormatWriter, Writer};
use crate::text::{decimal, decimal_string, push_char};

verus! {

/// Height in pixels of one symbol row: the explicit `^B7` row height when it
/// is positive, else the `^BY` height shared among the rows (at least 1).
pub open spec fn row_height_of(b7_row_height: i32, by_height: i32, num_rows: u32) -> int {
    if b7_row_height > 0 {
        b7_row_height as int
    } else {
        let by = (by_height as u32) as int;
        let n = if num_rows >= 1 {
            num_rows as int
        } else {
            1
        };
        if by / n >= 1 {
            by / n
        } else {
            1
        }
    }
}

/// The effective row height for PDF417 rendering; see [`row_height_of`].
pub fn resolve_row_height(b7_row_height: i32, by_height: i32, num_rows: u32) -> (h: u32)
    ensures
        h == row_height_of(b7_row_height, by_height, num_rows),
        h >= 1,
{
    if b7_row_height > 0 {
        b7_row_height as u32
    } else {
        let n: u32 = if num_rows >= 1 {
            num_rows
        } else {
            1
        };
        let q = (by_height as u32) / n;
        if q >= 1 {
            q
        } else {
            1
        }
    }
}

/// The bounds on columns and rows handed to the encoder.
#[derive(Clone, Copy, Debug, PartialEq, Eq, Structural)]
pub struct Pdf417Dimensions {
    pub min_cols: usize,
    pub max_cols: usize,
    pub min_rows: usize,
    pub max_rows: usize,
}

/// `v` held to `lo..=hi`.
pub open spec fn clamp(v: int, lo: int, hi: int) -> int {
    if v < lo {
        lo
    } else if v > hi {
        hi
    } else {
        v
    }
}

/// The column bounds: exactly the requested count held to 1..=30, or 1..=30
/// when none is requested; likewise rows in 3..=90.
pub open spec fn pdf417_bounds(column_count: i32, row_count: i32) -> Pdf417Dimensions {
    let c = clamp(column_count as int, 1, 30) as usize;
    let r = clamp(row_count as int, 3, 90) as usize;
    Pdf417Dimensions {
        min_cols: if column_count > 0 {
            c
        } else {
            1
        },
        max_cols: if column_count > 0 {
            c
        } else {
            30
        },
        min_rows: if row_count > 0 {
            r
        } else {
            3
        },
        max_rows: if row_count > 0 {
            r
        } else {
            90
        },
    }
}

/// The message for a symbol of `c` columns and `r` rows, more than 928
/// codewords.
pub open spec fn pdf417_limit_error(c: nat, r: nat) -> Seq<char> {
    "PDF417: cols("@ + decimal(c) + ") "@ + seq!['\u{d7}'] + " rows("@ + decimal(r) + ") = "@
        + decimal(c * r) + " exceeds 928 codeword limit"@
}

fn append_str(s: &mut String, t: &str)
    ensures
        final(s)@ == old(s)@ + t@,
{
    s.append(t);
}

/// The column and row bounds for `^B7` counts (0 or less: free), refused
/// when the smallest symbol they allow holds more than 928 codewords.
pub fn pdf417_dimensions(column_count: i32, row_count: i32) -> (r: Result<Pdf417Dimensions, String>)
    ensures
        ({
            let d = pdf417_bounds(column_count, row_count);
            if d.min_cols * d.min_rows > 928 {
                r matches Err(e) && e@ == pdf417_limit_error(d.min_cols as nat, d.min_rows as nat)
            } else {
                r == Ok::<Pdf417Dimensions, String>(d)
            }
        }),
{
    let c: usize = if column_count < 1 {
        1
    } else if column_count > 30 {
        30
    } else {
        column_count as usize
    };
    let rr: usize = if row_count < 3 {
        3
    } else if row_count > 90 {
        90
    } else {
        row_count as usize
    };
    let d = Pdf417Dimensions {
        min_cols: if column_count > 0 { c } else { 1 },
        max_cols: if column_count > 0 { c } else { 30 },
        min_rows: if row_count > 0 { rr } else { 3 },
        max_rows: if row_count > 0 { rr } else { 90 },
    };
    proof {
        assert(d.min_cols * d.min_rows <= 2700) by (nonlinear_arith)
            requires
                d.min_cols <= 30,
                d.min_rows <= 90,
        ;
    }
    if d.min_cols * d.min_rows > 928 {
        let mut m = "PDF417: cols(".to_owned();
        append_str(&mut m, decimal_string(d.min_cols).as_str());
        append_str(&mut m, ") ");
        push_char(&mut m, '\u{d7}');
        append_str(&mut m, " rows(");
        append_str(&mut m, decimal_string(d.min_rows).as_str());
        append_str(&mut m, ") = ");
        append_str(&mut m, decimal_string(d.min_cols * d.min_rows).as_str());
        append_str(&mut m, " exceeds 928 codeword limit");
        proof {
            assert(m@ == pdf417_limit_error(d.min_cols as nat, d.min_rows as nat));
        }
        return Err(m);
    }
    Ok(d)
}

/// Pixel (`x`, `y`) of the drawing of `matrix`: the first pixel row of each
/// four-row symbol row of the encoder's matrix, stretched to `scale_y`
/// pixels.
pub open spec fn pdf417_pixel(matrix: BitMatrix, scale_y: int, x: int, y: int) -> bool {
    matrix.bit(x, (y / scale_y) * 4)
}

/// Draws the encoder's matrix (four pixel rows per symbol row) with each
/// symbol row [`resolve_row_height`] pixels tall.
pub fn pdf417_image(matrix: &BitMatrix, row_height: i32, by_height: i32) -> (img: BitMatrix)
    requires
        matrix.wf(),
        matrix.spec_height() <= u32::MAX,
        ({
            let rows = if matrix.spec_height() / 4 >= 1 {
                matrix.spec_height() / 4
            } else {
                1
            };
            let sy = row_height_of(row_height, by_height, rows as u32);
            rows * sy <= u32::MAX && matrix.spec_width() * (rows * sy) <= usize::MAX
        }),
    ensures
        ({
            let rows = if matrix.spec_height() / 4 >= 1 {
                matrix.spec_height() / 4
            } else {
                1
            };
            let sy = row_height_of(row_height, by_height, rows as u32);
            &&& img.wf()
            &&& img.spec_width() == matrix.spec_width()
            &&& img.spec_height() == rows * sy
            &&& forall|x: int, y: int|
                0 <= x < img.spec_width() && 0 <= y < img.spec_height() ==> #[trigger] img.bit(x, y)
                    == pdf417_pixel(*matrix, sy, x, y)
        }),
{
    let q: u32 = (matrix.height() / 4) as u32;
    let rows: u32 = if q >= 1 {
        q
    } else {
        1
    };
    let sy: u32 = resolve_row_height(row_height, by_height, rows);
    let h: usize = (rows * sy) as usize;
    let w: usize = matrix.width();
    let ghost g = |x: int, y: int| pdf417_pixel(*matrix, sy as int, x, y);
    let f = |x: usize, y: usize| -> (v: bool)
        requires
            matrix.wf(),
            y < h,
            h == rows * sy,
            sy >= 1,
        ensures
            v == pdf417_pixel(*matrix, sy as int, x as int, y as int),
    {
        let row = y / (sy as usize);
        proof {
            assert(row < rows) by (nonlinear_arith)
                requires
                    y < rows * sy,
                    sy >= 1,
                    row == y as int / (sy as int),
            {
                vstd::arithmetic::div_mod::lemma_multiply_divide_lt(y as int, sy as int, rows as int);
                assert(sy * rows == rows * sy);
            }
            assert(row * 4 <= 4 * 0x1_0000_0000);
        }
        matrix.get(x, row * 4)
    };
    BitMatrix::build(w, h, f, Ghost(g))
}


/// The PDF417 symbol that rxing's `MultiFormatWriter` builds for `content`
/// with no margin, error correction level `ec`, the compact form when
/// `compact`, and the column and row bounds: its width, height and modules row
/// by row (four pixel rows per symbol row), or its error text.
pub uninterp spec fn pdf417_symbol(
    content: Seq<char>,
    ec: u32,
    compact: bool,
    min_cols: usize,
    max_cols: usize,
    min_rows: usize,
    max_rows: usize,
) -> Result<(nat, nat, Seq<bool>), Seq<char>>;

/// rxing's `MultiFormatWriter::encode_with_hints` for `BarcodeFormat::PDF_417`
/// at size 0 by 0 (the smallest scale), with the hints `Margin("0")`,
/// `ErrorCorrection(ec)`, `Pdf417Compact(compact)` and `Pdf417Dimensions`. Claimed: the outcome is
/// [`pdf417_symbol`] of the arguments; the modules number width times height,
/// and neither side exceeds 579 (34 codeword columns of 17 modules and one
/// more, or 90 rows of 4 pixels, the symbol being turned when taller than
/// wide), as `BarcodeMatrix::new` and the writer's `bitMatrixFromEncoder`
/// show. The encoder looks up the symbol length codeword in its codeword
/// table, which ends at 928; [`pdf417_fits`] keeps every size it may choose
/// within that table.
#[verifier::external_body]
fn pdf417_matrix(content: &str, ec: u32, compact: bool, dims: Pdf417Dimensions) -> (r: Result<
    (usize, usize, Vec<bool>),
    String,
>)
    requires
        1 <= ec <= 8,
        1 <= dims.min_cols <= dims.max_cols <= 30,
        3 <= dims.min_rows <= dims.max_rows <= 90,
        dims.min_cols * dims.min_rows <= 928,
        match pdf417_high_level(content@) {
            Ok(cw) => pdf417_fits(cw.len() as int, ec_codeword_count(ec), dims),
            Err(_) => true,
        },
    ensures
        match r {
            Ok((w, h, m)) => pdf417_symbol(
                content@,
                ec,
                compact,
                dims.min_cols,
                dims.max_cols,
                dims.min_rows,
                dims.max_rows,
            ) == Ok::<(nat, nat, Seq<bool>), Seq<char>>((w as nat, h as nat, m@)) && m@.len() == w
                * h && w <= 579 && h <= 579,
            Err(e) => pdf417_symbol(
                content@,
                ec,
                compact,
                dims.min_cols,
                dims.max_cols,
                dims.min_rows,
                dims.max_rows,
            ) == Err::<(nat, nat, Seq<bool>), Seq<char>>(e@),
        },
{
    let d = Dimensions::new(dims.min_cols, dims.max_cols, dims.min_rows, dims.max_rows);
    let hints = EncodeHints::default()
        .with(EncodeHintValue::Margin("0".to_string()))
        .with(EncodeHintValue::ErrorCorrection(ec.to_string()))
        .with(EncodeHintValue::Pdf417Compact(compact.to_string()))
        .with(EncodeHintValue::Pdf417Dimensions(d));
    match MultiFormatWriter.encode_with_hints(content, &BarcodeFormat::PDF_417, 0, 0, &hints) {
        Ok(bm) => Ok((bm.getWidth() as usize, bm.getHeight() as usize, Vec::<bool>::from(&bm))),
        Err(e) => Err(e.to_string()),
    }
}

/// The codewords that rxing's PDF417 high-level encoder makes of `content`
/// (automatic compaction, no character set, no automatic ECI), as characters,
/// or its error text.
pub uninterp spec fn pdf417_high_level(content: Seq<char>) -> Result<Seq<char>, Seq<char>>;

/// rxing's `pdf_417_high_level_encoder::encodeHighLevel` with
/// `Compaction::AUTO`, no character set and no automatic ECI, the settings
/// its PDF417 writer uses here. Claimed: the outcome is
/// [`pdf417_high_level`] of the content.
#[verifier::external_body]
fn pdf417_codewords(content: &str) -> (r: Result<String, String>)
    ensures
        match r {
            Ok(cw) => pdf417_high_level(content@) == Ok::<Seq<char>, Seq<char>>(cw@),
            Err(e) => pdf417_high_level(content@) == Err::<Seq<char>, Seq<char>>(e@),
        },
{
    encodeHighLevel(content, Compaction::AUTO, None, false).map_err(|e| e.to_string())
}

/// The error correction codewords of level `level` (0 to 8): 2 to the power
/// `level + 1`.
pub open spec fn ec_codeword_count(level: u32) -> int {
    if level == 0 {
        2
    } else if level == 1 {
        4
    } else if level == 2 {
        8
    } else if level == 3 {
        16
    } else if level == 4 {
        32
    } else if level == 5 {
        64
    } else if level == 6 {
        128
    } else if level == 7 {
        256
    } else {
        512
    }
}

/// The rows the encoder gives `m` data and `k` error correction codewords in
/// `c` columns (with the symbol length codeword).
pub open spec fn rows_for(m: int, k: int, c: int) -> int {
    let r = (m + 1 + k) / c + 1;
    if c * r >= m + 1 + k + c {
        r - 1
    } else {
        r
    }
}

/// Every size the encoder may choose for `m` data and `k` error correction
/// codewords within the bounds `d` keeps the symbol length codeword (all
/// codewords but the error correction ones) at most 928, unless the message
/// is refused as too long first.
pub open spec fn pdf417_fits(m: int, k: int, d: Pdf417Dimensions) -> bool {
    m + k + 1 > 929 || forall|c: int|
        d.min_cols <= c <= d.max_cols && d.min_rows <= #[trigger] rows_for(m, k, c) <= d.max_rows
            ==> c * rows_for(m, k, c) - k <= 928
}

/// Whether [`pdf417_fits`] holds.
fn pdf417_fits_exec(m: usize, k: u32, d: &Pdf417Dimensions) -> (b: bool)
    requires
        1 <= d.min_cols <= 30,
        d.max_cols <= 30,
        d.max_rows <= 90,
        k <= 512,
    ensures
        b == pdf417_fits(m as int, k as int, *d),
{
    if m > 929 || (m as u64) + (k as u64) + 1 > 929 {
        return true;
    }
    let mm = m as u64;
    let kk = k as u64;
    let mut c: usize = d.min_cols;
    while c <= d.max_cols
        invariant
            1 <= d.min_cols <= c,
            d.max_cols <= 30,
            d.max_rows <= 90,
            c <= 31,
            mm == m,
            kk == k,
            m + k + 1 <= 929,
            forall|c2: int|
                d.min_cols <= c2 < c && d.min_rows <= #[trigger] rows_for(m as int, k as int, c2)
                    <= d.max_rows ==> c2 * rows_for(m as int, k as int, c2) - k <= 928,
        decreases 31 - c,
    {
        let cc = c as u64;
        let r0 = (mm + 1 + kk) / cc + 1;
        proof {
            assert(r0 <= 931) by (nonlinear_arith)
                requires
                    cc >= 1,
                    r0 == (mm + 1 + kk) as int / cc as int + 1,
                    mm + 1 + kk <= 929,
            ;
            assert(cc * r0 <= 30 * 931) by (nonlinear_arith)
                requires
                    cc <= 30,
                    r0 <= 931,
            ;
        }
        let r = if cc * r0 >= mm + 1 + kk + cc {
            r0 - 1
        } else {
            r0
        };
        assert(r == rows_for(m as int, k as int, c as int));
        assert(cc * r <= 30 * 931) by (nonlinear_arith)
            requires
                cc <= 30,
                r <= 931,
        ;
        if d.min_rows as u64 <= r && r <= d.max_rows as u64 && cc * r > 928 + kk {
            return false;
        }
        c += 1;
    }
    true
}

/// The encoder can draw `content` with the settings of [`encode`]: empty
/// content, a refused size or a message the high-level encoder refuses end
/// before the symbol is laid out, and otherwise every size it may choose
/// fits its codeword table.
pub open spec fn pdf417_encodable(
    content: Seq<char>,
    security_level: i32,
    column_count: i32,
    row_count: i32,
) -> bool {
    let d = pdf417_bounds(column_count, row_count);
    content.len() > 0 && d.min_cols * d.min_rows <= 928 ==> match pdf417_high_level(content) {
        Ok(cw) => pdf417_fits(cw.len() as int, ec_codeword_count(pdf417_level(security_level)), d),
        Err(_) => true,
    }
}

/// The error correction level handed to the encoder: levels 1 to 8 as
/// given; anything else the encoder's default, 2.
pub open spec fn pdf417_level(security_level: i32) -> u32 {
    if 0 < security_level && security_level <= 8 {
        security_level as u32
    } else {
        2
    }
}

/// The pixel row height is small enough for any symbol of at most 579 pixel
/// rows to be drawn.
pub open spec fn pdf417_height_fits(row_height: i32, by_height: i32) -> bool {
    let cap: int = if row_height > 0 {
        row_height as int
    } else if (by_height as u32) >= 1 {
        (by_height as u32) as int
    } else {
        1
    };
    &&& 145 * cap <= u32::MAX
    &&& 579 * (145 * cap) <= usize::MAX
}

/// What [`encode`] returns for its arguments: the errors for empty content
/// and a refused size, else the encoder's symbol drawn by [`pdf417_image`]
/// or its error.
pub open spec fn pdf417_result(
    content: Seq<char>,
    row_height: i32,
    security_level: i32,
    column_count: i32,
    row_count: i32,
    truncated: bool,
    by_height: i32,
    r: Result<BitMatrix, String>,
) -> bool {
    ({
            let d = pdf417_bounds(column_count, row_count);
            if content.len() == 0 {
                r matches Err(e) && e@ == "PDF417: empty content"@
            } else if d.min_cols * d.min_rows > 928 {
                r matches Err(e) && e@ == pdf417_limit_error(d.min_cols as nat, d.min_rows as nat)
            } else {
                match pdf417_symbol(
                    content,
                    pdf417_level(security_level),
                    truncated,
                    d.min_cols,
                    d.max_cols,
                    d.min_rows,
                    d.max_rows,
                ) {
                    Ok((w, h, m)) => r matches Ok(img) && ({
                        let rows = if h / 4 >= 1 {
                            h / 4
                        } else {
                            1
                        };
                        let sy = row_height_of(row_height, by_height, rows as u32);
                        &&& img.wf()
                        &&& img.spec_width() == w
                        &&& img.spec_height() == rows * sy
                        &&& forall|x: int, y: int|
                            0 <= x < w && 0 <= y < rows * sy ==> #[trigger] img.bit(x, y) == (0 <= (
                            y / sy) * 4 < h && m[((y / sy) * 4) * w + x])
                    }),
                    Err(e) => r matches Err(e2) && e2@ == "PDF417 encoding failed: "@ + e,
                }
            }
        })
}

/// PDF417 for `content`: the size rules of [`pdf417_dimensions`], the
/// encoder's symbol, then [`pdf417_image`]. Empty content, a symbol too large,
/// and any error of the encoder, are errors.
pub fn encode(
    content: &str,
    row_height: i32,
    security_level: i32,
    column_count: i32,
    row_count: i32,
    truncated: bool,
    by_height: i32,
) -> (r: Result<BitMatrix, String>)
    requires
        pdf417_height_fits(row_height, by_height),
        pdf417_encodable(content@, security_level, column_count, row_count),
    ensures
        pdf417_result(
            content@,
            row_height,
            security_level,
            column_count,
            row_count,
            truncated,
            by_height,
            r,
        ),
{
    if content.unicode_len() == 0 {
        return Err("PDF417: empty content".to_owned());
    }
    let ec: u32 = if 0 < security_level && security_level <= 8 {
        security_level as u32
    } else {
        2
    };
    let dims = pdf417_dimensions(column_count, row_count)?;
    match pdf417_matrix(content, ec, truncated, dims) {
        Ok((w, h, m)) => {
            let matrix = BitMatrix::from_grid(w, h, m);
            let ghost rows = if h / 4 >= 1 {
                h / 4
            } else {
                1
            };
            proof {
                let sy = row_height_of(row_height, by_height, rows as u32);
                let cap: int = if row_height > 0 {
                    row_height as int
                } else if (by_height as u32) >= 1 {
                    (by_height as u32) as int
                } else {
                    1
                };
                assert(1 <= sy <= cap);
                assert(rows <= 145);
                assert(rows * sy <= 145 * cap) by (nonlinear_arith)
                    requires
                        rows <= 145,
                        1 <= sy <= cap,
                        rows >= 1,
                ;
                assert(w * (rows * sy) <= 579 * (145 * cap)) by (nonlinear_arith)
                    requires
                        w <= 579,
                        0 <= rows * sy <= 145 * cap,
                ;
            }
            let img = pdf417_image(&matrix, row_height, by_height);
            proof {
                let sy = row_height_of(row_height, by_height, rows as u32);
                assert forall|x: int, y: int| 0 <= x < w && 0 <= y < rows * sy implies #[trigger] img.bit(
                    x,
                    y,
                ) == (0 <= (y / sy) * 4 < h && matrix.cells()[((y / sy) * 4) * w + x]) by {
                    assert(img.bit(x, y) == pdf417_pixel(matrix, sy, x, y));
                }
            }
            Ok(img)
        },
        Err(e) => {
            let mut msg = "PDF417 encoding failed: ".to_owned();
            msg.append(e.as_str());
            Err(msg)
        },
    }
}


/// [`encode`] where the encoder can lay the symbol out; `None` where some
/// size the encoder may choose would need a symbol length codeword beyond its
/// table (the encoder itself would fail there on an out-of-range index).
pub fn encode_checked(
    content: &str,
    row_height: i32,
    security_level: i32,
    column_count: i32,
    row_count: i32,
    truncated: bool,
    by_height: i32,
) -> (r: Option<Result<BitMatrix, String>>)
    requires
        pdf417_height_fits(row_height, by_height),
    ensures
        r is None <==> !pdf417_encodable(content@, security_level, column_count, row_count),
        r matches Some(x) ==> pdf417_result(
            content@,
            row_height,
            security_level,
            column_count,
            row_count,
            truncated,
            by_height,
            x,
        ),
{
    if content.unicode_len() > 0 {
        if let Ok(d) = pdf417_dimensions(column_count, row_count) {
            if let Ok(cw) = pdf417_codewords(content) {
                let ec: u32 = if 0 < security_level && security_level <= 8 {
                    security_level as u32
                } else {
                    2
                };
                let k: u32 = if ec == 1 {
                    4
                } else if ec == 2 {
                    8
                } else if ec == 3 {
                    16
                } else if ec == 4 {
                    32
                } else if ec == 5 {
                    64
                } else if ec == 6 {
                    128
                } else if ec == 7 {
                    256
                } else {
                    512
                };
                if !pdf417_fits_exec(cw.unicode_len(), k, &d) {
                    return None;
                }
            }
        }
    }
    Some(encode(content, row_height, security_level, column_count, row_count, truncated, by_height))
}

} // verus!
