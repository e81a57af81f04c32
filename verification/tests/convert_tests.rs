use wtool::codec::EncodingDescriptor;
use wtool::convert::{ConvertOutcome, Converter};
use wtool::errors::{ErrorStr, ErrorString};

fn enc(label: &str) -> EncodingDescriptor {
    EncodingDescriptor::lookup(label).unwrap()
}

fn converted(outcome: ConvertOutcome) -> Vec<u8> {
    match outcome {
        ConvertOutcome::Converted(bytes) => bytes,
        _ => panic!("conversion did not produce bytes"),
    }
}

#[test]
fn utf8_to_utf16le_bytes() {
    let c = Converter::new();
    let out = c.convert_content(&b"hi".to_vec(), &enc("utf-8"), &enc("utf-16le"));
    assert_eq!(converted(out), vec![0x68, 0x00, 0x69, 0x00]);
}

#[test]
fn conversion_round_trip() {
    let c = Converter::new();
    let original = "koi8 text: \u{0436}".as_bytes().to_vec();
    let there = converted(c.convert_content(&original, &enc("utf-8"), &enc("koi8-r")));
    assert_ne!(there, original);
    let back = converted(c.convert_content(&there, &enc("koi8-r"), &enc("utf-8")));
    assert_eq!(back, original);
}

#[test]
fn empty_input_is_left_alone() {
    let c = Converter::new();
    assert!(matches!(
        c.convert_content(&Vec::new(), &enc("utf-8"), &enc("utf-16le")),
        ConvertOutcome::EmptyInput
    ));
}

#[test]
fn invalid_source_bytes_fail_decode() {
    let c = Converter::new();
    assert!(matches!(
        c.convert_content(&vec![0x61, 0xFF], &enc("utf-8"), &enc("utf-16le")),
        ConvertOutcome::DecodeFailed
    ));
}

#[test]
fn unrepresentable_character_fails_encode() {
    let c = Converter::new();
    let cjk = "\u{4E2D}".as_bytes().to_vec();
    assert!(matches!(
        c.convert_content(&cjk, &enc("utf-8"), &enc("windows-1252")),
        ConvertOutcome::EncodeFailed
    ));
}

#[test]
fn error_string_keeps_its_message() {
    let e = ErrorString::new("something failed".to_string());
    assert_eq!(e.message(), "something failed");
}

#[test]
fn error_str_keeps_its_message() {
    let e = ErrorStr::new("static failure");
    assert_eq!(e.message(), "static failure");
}
