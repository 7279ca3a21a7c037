[package]
name = "labelize"
version = "0.1.0"
edition = "2021"
publish = false

[dependencies]
base64 = "=0.22.1"
flate2 = "=1.1.10"
rxing = { version = "=0.9.3", default-features = false, features = ["encoders", "pdf417", "aztec", "encoding_rs"] }
qrcode = { version = "=0.14.1", default-features = false }
datamatrix = "=0.3.3"
image = { version = "=0.25.10", default-features = false, features = ["png"] }
imageproc = { version = "=0.25.1", default-features = false }
ab_glyph = "=0.2.32"
