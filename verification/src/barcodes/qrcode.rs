//! QR code: the symbol comes from the `qrcode` crate; this module draws it.
use vstd::prelude::*;
use crate::barcodes::bit_matrix::{BitMatrix, at_least_one};
use crate::elements::barcode_qr::QrErrorCorrectionLevel;
use vstd::utf8::encode_utf8;

verus! {

/// The QR symbol that the `qrcode` crate builds for `data` at error
/// correction level `ec`: the number of modules per side and the modules row
/// by row (`true` dark), or the text of its error.
pub uninterp spec fn qr_symbol(data: Seq<u8>, ec: QrErrorCorrectionLevel) -> Result<
    (nat, Seq<bool>),
    Seq<char>,
>;

/// `qrcode::QrCode::with_error_correction_level`, then `width` and
/// `to_colors`. Claimed: the outcome is [`qr_symbol`] of the arguments; a
/// symbol has `width * width` modules and is at most 177 modules wide (version
/// 40), as the crate's `Canvas::new` and `encode_auto` show.
#[verifier::external_body]
fn qr_modules(data: &[u8], ec: QrErrorCorrectionLevel) -> (r: Result<(usize, Vec<bool>), String>)
    ensures
        match r {
            Ok((w, m)) => qr_symbol(data@, ec) == Ok::<(nat, Seq<bool>), Seq<char>>((w as nat, m@))
                && m@.len() == w * w && w <= 177,
            Err(e) => qr_symbol(data@, ec) == Err::<(nat, Seq<bool>), Seq<char>>(e@),
        },
{
    let level = match ec {
        QrErrorCorrectionLevel::L => qrcode::EcLevel::L,
        QrErrorCorrectionLevel::M => qrcode::EcLevel::M,
        QrErrorCorrectionLevel::Q => qrcode::EcLevel::Q,
        QrErrorCorrectionLevel::H => qrcode::EcLevel::H,
    };
    match qrcode::QrCode::with_error_correction_level(data, level) {
        Ok(code) => Ok((code.width(), code.to_colors().iter().map(|c| match c {
            qrcode::Color::Dark => true,
            qrcode::Color::Light => false,
        }).collect())),
        Err(e) => Err(e.to_string()),
    }
}

/// The modules around which a quiet zone of this many modules is left.
pub const QUIET_ZONE: usize = 4;

/// Pixel (`x`, `y`) of a `width`-module symbol drawn at `mag` pixels per
/// module inside a four-module quiet zone is dark.
pub open spec fn qr_pixel(width: int, modules: Seq<bool>, mag: int, x: int, y: int) -> bool {
    let c = x / mag - 4;
    let r = y / mag - 4;
    0 <= c < width && 0 <= r < width && modules[r * width + c]
}

/// Draws a `width`-module symbol at `magnification` pixels per module (at
/// least 1) inside a quiet zone of four modules.
pub fn qr_image(width: usize, modules: &Vec<bool>, magnification: i32) -> (img: BitMatrix)
    requires
        modules@.len() == width * width,
        (width + 8) * at_least_one(magnification) * ((width + 8) * at_least_one(magnification))
            <= usize::MAX,
    ensures
        img.wf(),
        img.spec_width() == (width + 8) * at_least_one(magnification),
        img.spec_height() == (width + 8) * at_least_one(magnification),
        forall|x: int, y: int|
            0 <= x < img.spec_width() && 0 <= y < img.spec_height() ==> #[trigger] img.bit(x, y)
                == qr_pixel(width as int, modules@, at_least_one(magnification), x, y),
{
    let mag: usize = if magnification > 1 { magnification as usize } else { 1 };
    proof {
        assert((width + 8) * mag <= usize::MAX && width + 8 <= usize::MAX) by (nonlinear_arith)
            requires
                (width + 8) * mag * ((width + 8) * mag) <= usize::MAX,
                mag >= 1,
                width >= 0,
        ;
    }
    let side: usize = (width + 8) * mag;
    let ghost g = |x: int, y: int| qr_pixel(width as int, modules@, mag as int, x, y);
    let f = |x: usize, y: usize| -> (v: bool)
        requires
            x < side,
            y < side,
            modules@.len() == width * width,
        ensures
            v == qr_pixel(width as int, modules@, mag as int, x as int, y as int),
    {
        let cx = x / mag;
        let cy = y / mag;
        if cx >= QUIET_ZONE && cy >= QUIET_ZONE && cx - QUIET_ZONE < width && cy - QUIET_ZONE < width {
            let c = cx - QUIET_ZONE;
            let r = cy - QUIET_ZONE;
            let n = modules.len();
            proof {
                crate::barcodes::bit_matrix::lemma_grid_cell(width as int, width as int, c as int, r as int);
            }
            modules[r * width + c]
        } else {
            false
        }
    };
    BitMatrix::build(side, side, f, Ghost(g))
}

/// QR code for `content` (its UTF-8 bytes) at error correction level
/// `ec_level`, drawn by [`qr_image`]. Empty content, and any error of the
/// encoder, is an error.
pub fn encode(content: &str, magnification: i32, ec_level: QrErrorCorrectionLevel) -> (r: Result<
    BitMatrix,
    String,
>)
    requires
        content@.len() > 0 ==> 185 * at_least_one(magnification) * (185 * at_least_one(magnification)) <= usize::MAX,
    ensures
        content@.len() == 0 ==> (r matches Err(e) && e@ == "QR code: empty content"@),
        content@.len() > 0 ==> match qr_symbol(encode_utf8(content@), ec_level) {
            Ok((w, m)) => r matches Ok(img) && img.wf() && img.spec_width() == (w + 8)
                * at_least_one(magnification) && img.spec_height() == img.spec_width() && forall|
                x: int,
                y: int,
            |
                0 <= x < img.spec_width() && 0 <= y < img.spec_height() ==> #[trigger] img.bit(x, y)
                    == qr_pixel(w as int, m, at_least_one(magnification), x, y),
            Err(e) => r matches Err(e2) && e2@ == "QR code encoding failed: "@ + e,
        },
{
    if content.unicode_len() == 0 {
        return Err("QR code: empty content".to_owned());
    }
    match qr_modules(content.as_bytes(), ec_level) {
        Ok((w, m)) => {
            proof {
                let k = at_least_one(magnification);
                assert((w + 8) * k * ((w + 8) * k) <= 185 * k * (185 * k)) by (nonlinear_arith)
                    requires
                        w <= 177,
                        k >= 1,
                ;
            }
            Ok(qr_image(w, &m, magnification))
        },
        Err(e) => {
            let mut msg = "QR code encoding failed: ".to_owned();
            msg.append(e.as_str());
            Err(msg)
        },
    }
}

} // verus!
