//! Aztec: the symbol comes from rxing's Aztec writer; this module chooses the
//! error correction and draws the symbol.
use vstd::prelude::*;
use crate::barcodes::bit_matrix::{BitMatrix, at_least_one};
use vstd::string::StringExecFns;
use rxing::aztec::AztecWriter;
use rxing::{BarcodeFormat, EncodeHintValue, EncodeHints, Writer};

verus! {

/// The Aztec symbol that rxing's `AztecWriter` builds for `content` with
/// `ec_percent` per cent error correction and no margin: its width, height and
/// modules row by row, or its error text.
pub uninterp spec fn aztec_symbol(content: Seq<char>, ec_percent: i32) -> Result<
    (nat, nat, Seq<bool>),
    Seq<char>,
>;

/// rxing's `AztecWriter::encode_with_hints` for `BarcodeFormat::AZTEC` at
/// size 0 by 0 with the hints `ErrorCorrection(ec_percent)` and
/// `Margin("0")`. Claimed: the outcome is [`aztec_symbol`] of the arguments;
/// the modules number width times height, and neither side exceeds 151 (32
/// layers with their reference grid), as the writer's `renderRXingResult`
/// and the encoder's size rules show. The encoder works out the error
/// correction bits as a `u32` product of the data bits and the percentage;
/// [`aztec_fits`] keeps that product in range.
#[verifier::external_body]
fn aztec_matrix(content: &str, ec_percent: i32) -> (r: Result<(usize, usize, Vec<bool>), String>)
    requires
        aztec_fits(content@.len(), ec_percent),
    ensures
        match r {
            Ok((w, h, m)) => aztec_symbol(content@, ec_percent) == Ok::<
                (nat, nat, Seq<bool>),
                Seq<char>,
            >((w as nat, h as nat, m@)) && m@.len() == w * h && w <= 151 && h <= 151,
            Err(e) => aztec_symbol(content@, ec_percent) == Err::<(nat, nat, Seq<bool>), Seq<char>>(
                e@,
            ),
        },
{
    let hints = EncodeHints::default()
        .with(EncodeHintValue::ErrorCorrection(ec_percent.to_string()))
        .with(EncodeHintValue::Margin("0".to_string()));
    match AztecWriter.encode_with_hints(content, &BarcodeFormat::AZTEC, 0, 0, &hints) {
        Ok(bm) => Ok((bm.getWidth() as usize, bm.getHeight() as usize, Vec::<bool>::from(&bm))),
        Err(e) => Err(e.to_string()),
    }
}

/// The encoder's arithmetic on the data bits stays within `u32` for `n`
/// characters at `ec_percent` per cent. Its high-level encoding takes fewer
/// than 42 bits per character (a character costs at most a shift or latch
/// and its code, or 8 bits in a binary run) plus 64 for the first mode
/// change, so the data bits times `ec_percent + 100` bound every sum and
/// product it forms.
pub open spec fn aztec_fits(n: nat, ec_percent: i32) -> bool {
    0 < ec_percent && (42 * n + 64) * (ec_percent + 100) <= u32::MAX
}

/// The error correction in per cent: as given when positive, else 23.
pub open spec fn aztec_ec(error_correction: i32) -> i32 {
    if error_correction > 0 {
        error_correction
    } else {
        23
    }
}

/// Aztec for `content` drawn at `magnification` pixels per module (at
/// least 1), without a quiet zone. Empty content, and any error of the
/// encoder, is an error.
pub fn encode(content: &str, magnification: i32, error_correction: i32) -> (r: Result<
    BitMatrix,
    String,
>)
    requires
        content@.len() > 0 ==> 151 * at_least_one(magnification) * (151 * at_least_one(
            magnification,
        )) <= usize::MAX,
        content@.len() > 0 ==> aztec_fits(content@.len(), aztec_ec(error_correction)),
    ensures
        content@.len() == 0 ==> (r matches Err(e) && e@ == "Aztec: empty content"@),
        content@.len() > 0 ==> match aztec_symbol(content@, aztec_ec(error_correction)) {
            Ok((w, h, m)) => r matches Ok(img) && img.wf() && img.spec_width() == w * at_least_one(
                magnification,
            ) && img.spec_height() == h * at_least_one(magnification) && forall|x: int, y: int|
                0 <= x < img.spec_width() && 0 <= y < img.spec_height() ==> #[trigger] img.bit(x, y)
                    == m[(y / at_least_one(magnification)) * w + x / at_least_one(magnification)],
            Err(e) => r matches Err(e2) && e2@ == "Aztec encoding failed: "@ + e,
        },
{
    if content.unicode_len() == 0 {
        return Err("Aztec: empty content".to_owned());
    }
    let ec = if error_correction > 0 {
        error_correction
    } else {
        23
    };
    match aztec_matrix(content, ec) {
        Ok((w, h, m)) => {
            let matrix = BitMatrix::from_grid(w, h, m);
            let mag: usize = if magnification > 1 {
                magnification as usize
            } else {
                1
            };
            proof {
                assert(w * mag <= 151 * mag && h * mag <= 151 * mag && (w * mag) * (h * mag) <= (151
                    * mag) * (151 * mag)) by (nonlinear_arith)
                    requires
                        w <= 151,
                        h <= 151,
                        mag >= 1,
                ;
                assert(151 * mag <= (151 * mag) * (151 * mag)) by (nonlinear_arith)
                    requires
                        mag >= 1,
                ;
            }
            let img = matrix.to_image(mag, mag);
            proof {
                assert forall|x: int, y: int|
                    0 <= x < img.spec_width() && 0 <= y < img.spec_height() implies #[trigger] img.bit(
                        x,
                        y,
                    ) == matrix.cells()[(y / mag as int) * w + x / mag as int] by {
                    let k = mag as int;
                    assert(k * (w as int) == (w as int) * k) by (nonlinear_arith);
                    assert(k * (h as int) == (h as int) * k) by (nonlinear_arith);
                    vstd::arithmetic::div_mod::lemma_multiply_divide_lt(x, k, w as int);
                    vstd::arithmetic::div_mod::lemma_multiply_divide_lt(y, k, h as int);
                    vstd::arithmetic::div_mod::lemma_div_pos_is_pos(x, k);
                    vstd::arithmetic::div_mod::lemma_div_pos_is_pos(y, k);
                }
            }
            Ok(img)
        },
        Err(e) => {
            let mut msg = "Aztec encoding failed: ".to_owned();
            msg.append(e.as_str());
            Err(msg)
        },
    }
}

} // verus!
