use wtool::codec::EncodingDescriptor;
use wtool::detect::{check_conformance, check_with_label, get_bom_mark, is_same_encoding};
use wtool::detect::{EBomPolicy, Verdict};

fn enc(label: &str) -> EncodingDescriptor {
    EncodingDescriptor::lookup(label).unwrap()
}

#[test]
fn bom_mark_values() {
    assert_eq!(get_bom_mark(&enc("utf-8")), vec![0xEF, 0xBB, 0xBF]);
    assert_eq!(get_bom_mark(&enc("utf-16be")), vec![0xFE, 0xFF]);
    assert_eq!(get_bom_mark(&enc("utf-16le")), vec![0xFF, 0xFE]);
    assert_eq!(get_bom_mark(&enc("windows-1251")), Vec::<u8>::new());
}

#[test]
fn label_aliasing_resolves_canonical_name() {
    assert_eq!(enc("utf8").name(), "utf-8");
    assert_eq!(enc("UTF-8").name(), "utf-8");
    assert_eq!(enc("cp1251").name(), "windows-1251");
}

#[test]
fn unknown_label_is_error_with_message() {
    let e = EncodingDescriptor::lookup("no-such-encoding").unwrap_err();
    assert_eq!(
        e.message(),
        "Failed to parse encoding param no-such-encoding"
    );
    let v = check_with_label(&b"abc".to_vec(), "no-such-encoding", &EBomPolicy::EIgnore);
    assert!(v.is_none());
}

#[test]
fn check_with_label_resolves_and_judges() {
    let data = b"plain text".to_vec();
    assert_eq!(
        check_with_label(&data, "utf8", &EBomPolicy::EIgnore),
        Some(Verdict::Match)
    );
    let bad = vec![0x61, 0xFF];
    assert_eq!(
        check_with_label(&bad, "utf8", &EBomPolicy::EIgnore),
        Some(Verdict::NoMatchDecodeFailed)
    );
}

#[test]
fn valid_utf8_matches() {
    let data = b"hello world".to_vec();
    assert_eq!(
        check_conformance(&data, &enc("utf-8"), &EBomPolicy::EIgnore),
        Verdict::Match
    );
    assert!(is_same_encoding(&data, &enc("utf-8"), &EBomPolicy::EIgnore));
}

#[test]
fn invalid_utf8_fails_decode() {
    let data = vec![0x68, 0xFF, 0x69];
    assert_eq!(
        check_conformance(&data, &enc("utf-8"), &EBomPolicy::EIgnore),
        Verdict::NoMatchDecodeFailed
    );
    assert!(!is_same_encoding(&data, &enc("utf-8"), &EBomPolicy::EIgnore));
}

#[test]
fn bom_present_satisfies_require_and_violates_forbid() {
    // The two halves of the byte-order-mark law, on concrete bytes.
    let mut data = vec![0xEF, 0xBB, 0xBF];
    data.extend_from_slice(b"hello");
    assert_eq!(
        check_conformance(&data, &enc("utf-8"), &EBomPolicy::EWithBom),
        Verdict::Match
    );
    assert_eq!(
        check_conformance(&data, &enc("utf-8"), &EBomPolicy::EWithoutBom),
        Verdict::NoMatchBomPolicyViolated
    );
    assert_eq!(
        check_conformance(&data, &enc("utf-8"), &EBomPolicy::EIgnore),
        Verdict::Match
    );
}

#[test]
fn bom_missing_violates_require() {
    let data = b"hello".to_vec();
    assert_eq!(
        check_conformance(&data, &enc("utf-8"), &EBomPolicy::EWithBom),
        Verdict::NoMatchBomPolicyViolated
    );
    assert_eq!(
        check_conformance(&data, &enc("utf-8"), &EBomPolicy::EWithoutBom),
        Verdict::Match
    );
}

#[test]
fn bomless_encoding_ignores_bom_policies() {
    // windows-1251 has no byte-order mark: either policy is satisfied
    // trivially and the strict decoder alone decides.
    let data = vec![0xC0, 0xC1, 0xC2];
    assert_eq!(
        check_conformance(&data, &enc("windows-1251"), &EBomPolicy::EWithBom),
        Verdict::Match
    );
    assert_eq!(
        check_conformance(&data, &enc("windows-1251"), &EBomPolicy::EWithoutBom),
        Verdict::Match
    );
}

#[test]
fn utf16le_bom_policies() {
    // FF FE then "hi" in UTF-16LE.
    let data = vec![0xFF, 0xFE, 0x68, 0x00, 0x69, 0x00];
    assert_eq!(
        check_conformance(&data, &enc("utf-16le"), &EBomPolicy::EWithBom),
        Verdict::Match
    );
    assert_eq!(
        check_conformance(&data, &enc("utf-16le"), &EBomPolicy::EWithoutBom),
        Verdict::NoMatchBomPolicyViolated
    );
    // An odd number of bytes can never be UTF-16.
    let odd = vec![0x68, 0x00, 0x69];
    assert_eq!(
        check_conformance(&odd, &enc("utf-16le"), &EBomPolicy::EIgnore),
        Verdict::NoMatchDecodeFailed
    );
}

#[test]
fn short_data_under_forbid_bom_is_decoded() {
    // One byte cannot carry the three-byte mark, so under EWithoutBom the
    // decoder decides.
    let data = b"h".to_vec();
    assert_eq!(
        check_conformance(&data, &enc("utf-8"), &EBomPolicy::EWithoutBom),
        Verdict::Match
    );
    // Under EWithBom the same buffer is too short for the mark.
    assert_eq!(
        check_conformance(&data, &enc("utf-8"), &EBomPolicy::EWithBom),
        Verdict::NoMatchBomPolicyViolated
    );
}

#[test]
fn empty_buffer_at_detector_level() {
    // The detector itself sees an empty buffer as strictly decodable; the
    // scan drops empty files before asking for a verdict.
    let data = Vec::new();
    assert_eq!(
        check_conformance(&data, &enc("utf-8"), &EBomPolicy::EIgnore),
        Verdict::Match
    );
}
