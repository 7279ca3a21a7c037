use std::io::Write;
use labelize::encodings;
use labelize::hex;

// --- Hex escape decoding ---

#[test]
fn hex_encoding_decode_escaped_string_basic() {
    // _2D = '-'
    let result = hex::decode_escaped_string("Hello_2DWorld", b'_').expect("decode failed");
    assert_eq!(result, "Hello-World");
}

#[test]
fn hex_encoding_decode_escaped_string_no_escapes() {
    let result = hex::decode_escaped_string("plain text", b'_').expect("decode failed");
    assert_eq!(result, "plain text");
}

#[test]
fn hex_encoding_decode_escaped_string_multiple_escapes() {
    // _41 = 'A', _42 = 'B'
    let result = hex::decode_escaped_string("_41_42C", b'_').expect("decode failed");
    assert_eq!(result, "ABC");
}

// --- Graphic field data ---

#[test]
fn hex_encoding_decode_graphic_field_simple_hex() {
    let data = "FFFF0000";
    let bytes = hex::decode_graphic_field_data(data, 2).expect("decode failed");
    assert_eq!(bytes, vec![0xFF, 0xFF, 0x00, 0x00]);
}

#[test]
fn hex_encoding_decode_graphic_field_with_compression() {
    // 'H' = repeat count 2, followed by 'F' means "FF"
    let data = "HF";
    let bytes = hex::decode_graphic_field_data(data, 1).expect("decode failed");
    assert_eq!(bytes, vec![0xFF]);
}

#[test]
fn hex_encoding_decode_graphic_field_comma_pads_with_zeros() {
    // comma fills remaining row bytes with '0'
    let data = "FF,";
    let bytes = hex::decode_graphic_field_data(data, 2).expect("decode failed");
    assert_eq!(bytes.len(), 2);
    assert_eq!(bytes[0], 0xFF);
    assert_eq!(bytes[1], 0x00);
}

// --- Z64 decoding via decode_graphic_field_data ---

#[test]
fn hex_encoding_decode_z64_through_graphic_field() {
    // Create Z64 data: zlib-compress then base64-encode
    let plain = vec![0xFF, 0x00, 0xFF, 0x00];

    let mut encoder = flate2::write::ZlibEncoder::new(Vec::new(), flate2::Compression::default());
    encoder.write_all(&plain).expect("compress");
    let compressed = encoder.finish().expect("finish");

    let b64 = base64::Engine::encode(&base64::engine::general_purpose::STANDARD, &compressed);
    let z64_data = format!(":Z64:{}:CRC", b64);

    let decoded = hex::decode_graphic_field_data(&z64_data, 2).expect("z64 decode failed");
    assert_eq!(decoded, plain);
}

// --- Encoding conversion ---

#[test]
fn hex_encoding_charset_0_ascii_passthrough() {
    let result = encodings::to_unicode_text("Hello", 0).expect("conversion failed");
    assert_eq!(result, "Hello");
}

#[test]
fn hex_encoding_charset_27_windows1252() {
    let result = encodings::to_unicode_text("Hello", 27).expect("conversion failed");
    assert_eq!(result, "Hello");
}

#[test]
fn hex_encoding_unknown_charset_passthrough() {
    let result = encodings::to_unicode_text("Test", 99).expect("conversion failed");
    assert_eq!(result, "Test");
}

#[test]
fn hex_text_round_trip_and_errors() {
    let bytes: Vec<u8> = vec![0x00, 0x0a, 0x7f, 0x80, 0xff, 0x10];
    let lower: String = bytes.iter().map(|b| format!("{:02x}", b)).collect();
    let upper: String = bytes.iter().map(|b| format!("{:02X}", b)).collect();
    assert_eq!(hex::decode(&lower), Ok(bytes.clone()));
    assert_eq!(hex::decode(&format!(" \t{}\n ", upper)), Ok(bytes.clone()));
    assert_eq!(hex::decode("abc"), Ok(vec![0xab, 0xc0]));
    assert_eq!(hex::decode("aBcD"), Ok(vec![0xab, 0xcd]));
    assert_eq!(hex::decode("  "), Ok(vec![]));
    assert_eq!(hex::decode("12zz").unwrap_err(), "invalid hex char: z");
    assert_eq!(hex::decode("1 2").unwrap_err(), "invalid hex char:  ");
    assert_eq!(hex::decode("12345").unwrap().len(), 3);
}
