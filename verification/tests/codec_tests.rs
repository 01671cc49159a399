use std::io::Write;

use r5v_core::codec::{
    check_container, decode_project_bytes, decode_project_file, encode_project_file, magic_bytes,
    CodecError,
};

const MAGIC: [u8; 4] = [0x52, 0x35, 0x56, 0x50];

fn round_trip(text: &str) {
    let encoded = encode_project_file(text).expect("encoding must succeed");
    assert_eq!(encoded.original_size, text.len());
    assert_eq!(encoded.compressed_size, encoded.bytes.len());
    assert!(encoded.bytes.len() >= 4);
    assert_eq!(&encoded.bytes[0..4], &MAGIC);
    let decoded = decode_project_bytes(encoded.bytes).expect("decoding must succeed");
    assert_eq!(decoded.content, text);
    assert!(decoded.compressed);
}

#[test]
fn round_trip_simple() {
    round_trip("hello world");
}

#[test]
fn round_trip_empty() {
    round_trip("");
}

#[test]
fn round_trip_multibyte() {
    round_trip("héllo wörld — 様々な文字 🚀 ўкраїнська");
}

#[test]
fn round_trip_large() {
    let mut text = String::new();
    while text.len() < 3_000_000 {
        text.push_str("A multi-megabyte document line with some repetition. 0123456789\n");
    }
    round_trip(&text);
}

#[test]
fn plain_path_decode() {
    let decoded = decode_project_bytes(b"just some plain text".to_vec()).unwrap();
    assert_eq!(decoded.content, "just some plain text");
    assert!(!decoded.compressed);
}

#[test]
fn short_bytes_decode_plain() {
    // A strict prefix of the magic marker is shorter than four bytes and
    // must take the plain path.
    let decoded = decode_project_bytes(b"R5V".to_vec()).unwrap();
    assert_eq!(decoded.content, "R5V");
    assert!(!decoded.compressed);
}

#[test]
fn empty_bytes_decode_plain() {
    let decoded = decode_project_bytes(Vec::new()).unwrap();
    assert_eq!(decoded.content, "");
    assert!(!decoded.compressed);
}

#[test]
fn invalid_utf8_plain_is_encoding_error() {
    let err = decode_project_bytes(vec![0xff, 0xfe, 0x00, 0x01]).unwrap_err();
    assert!(matches!(err, CodecError::Encoding(_)));
}

#[test]
fn magic_collision_fails_decompression() {
    // A plain text whose first four bytes equal the marker is, by design,
    // misread as a container and must fail deterministically.
    let mut bytes = b"R5VP is how this plain file happens to start".to_vec();
    assert_eq!(&bytes[0..4], &MAGIC);
    let err = decode_project_bytes(bytes.clone()).unwrap_err();
    assert!(matches!(err, CodecError::Decompression(_)));
    // And again: the misclassification is stable.
    bytes.push(b'!');
    let err = decode_project_bytes(bytes).unwrap_err();
    assert!(matches!(err, CodecError::Decompression(_)));
}

#[test]
fn corrupt_stream_fails_decompression() {
    let mut bytes = MAGIC.to_vec();
    bytes.extend_from_slice(&[0x00, 0x11, 0x22, 0x33, 0x44]);
    let err = decode_project_bytes(bytes).unwrap_err();
    assert!(matches!(err, CodecError::Decompression(_)));
}

#[test]
fn truncated_stream_fails_decompression() {
    let encoded = encode_project_file("a document that will be cut short").unwrap();
    let half = encoded.bytes.len() / 2;
    let truncated = encoded.bytes[..half].to_vec();
    let err = decode_project_bytes(truncated).unwrap_err();
    assert!(matches!(err, CodecError::Decompression(_)));
}

#[test]
fn compressed_invalid_utf8_fails_on_compressed_path() {
    // A sound gzip stream whose payload is not UTF-8: the compressed path
    // rejects it as a decompression failure, not an encoding one.
    let mut encoder =
        flate2::write::GzEncoder::new(Vec::new(), flate2::Compression::best());
    encoder.write_all(&[0xff, 0xfe, 0x80]).unwrap();
    let gz = encoder.finish().unwrap();
    let mut bytes = MAGIC.to_vec();
    bytes.extend(gz);
    let err = decode_project_bytes(bytes).unwrap_err();
    assert!(matches!(err, CodecError::Decompression(_)));
}

#[test]
fn size_reporting() {
    let text = "size check: ä ö ü make byte length exceed char count";
    let encoded = encode_project_file(text).unwrap();
    assert_eq!(encoded.original_size, text.len());
    assert!(encoded.original_size > text.chars().count());
    assert_eq!(encoded.compressed_size, encoded.bytes.len());
    assert_eq!(encoded.compressed_size, 4 + (encoded.bytes.len() - 4));
}

#[test]
fn magic_bytes_value() {
    assert_eq!(magic_bytes(), MAGIC.to_vec());
}

#[test]
fn check_container_classification() {
    assert!(check_container(&MAGIC.to_vec()));
    let mut long = MAGIC.to_vec();
    long.push(77);
    assert!(check_container(&long));
    assert!(!check_container(&b"R5V".to_vec()));
    assert!(!check_container(&b"R5VQ....".to_vec()));
    assert!(!check_container(&Vec::new()));
}

#[test]
fn decode_project_file_report_fields() {
    let encoded = encode_project_file("report").unwrap();
    let ok = decode_project_file(encoded.bytes);
    assert!(ok.success);
    assert_eq!(ok.content.as_deref(), Some("report"));
    assert_eq!(ok.compressed, Some(true));
    assert!(ok.error.is_none());

    let plain = decode_project_file(b"legacy".to_vec());
    assert!(plain.success);
    assert_eq!(plain.content.as_deref(), Some("legacy"));
    assert_eq!(plain.compressed, Some(false));

    let bad = decode_project_file(vec![0xff, 0xc0]);
    assert!(!bad.success);
    assert!(bad.content.is_none());
    assert!(bad.compressed.is_none());
    assert!(bad.error.is_some());
}

#[test]
fn error_message_accessor() {
    let err = decode_project_bytes(vec![0xff]).unwrap_err();
    let message = err.message();
    assert!(!message.is_empty());
}
