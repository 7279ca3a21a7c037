# labelize

Parsing of ZPL and EPL label programs into label models, the barcode
encoders, and the placement rules of the label renderer, with their behaviour
stated in contracts and proved with Verus.

- `src/parsers` — the ZPL parser (a virtual printer whose state carries across
  labels: stored formats and graphics, fonts, barcode defaults) and the EPL
  parser; their results are stated as relations over the input text.
  Numeric parameters are read as `str::parse::<f64>` reads them: the decimal
  text rounded to the nearest binary64 number, worked out with integers.
- `src/elements` — the label model: text fields, boxes, graphic fields,
  barcodes with their settings, stored formats and how recalled fields are
  resolved.
- `src/barcodes` — Code 128, Code 39, EAN-13 and Interleaved 2 of 5 built
  module by module; MaxiCode drawn module by module; QR code, Data Matrix,
  PDF417 and Aztec symbols taken from their encoder crates and drawn by
  verified code.
- `src/drawers` — the pixel canvas and the renderer's rules: rotations,
  overlays, boxes with rounded corners, graphic fields, where a field placed
  by its baseline goes, and the finished label (centred, inverted).
- `src/hex.rs`, `src/encodings.rs`, `src/text.rs` — hex escapes, graphic field
  data (hex with run-length compression, Z64), code page 850 and the national
  character sets, and the text helpers the rest is built on.
- `app/` — drawing that needs fonts and floating point (text, circles,
  diagonal lines), PNG output, and the `DrawerOptions` label size.
