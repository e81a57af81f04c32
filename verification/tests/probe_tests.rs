use wtool::codec::{registry_names, EncodingDescriptor};
use wtool::detect::{first_line_preview, is_same_encoding, DetectEncodingCmd, EBomPolicy};

fn names(list: &[&str]) -> Vec<String> {
    list.iter().map(|s| s.to_string()).collect()
}

#[test]
fn probe_ascii_reports_multiple_encodings() {
    let data = b"hello world".to_vec();
    let list = names(&["utf-8", "windows-1252", "utf-16le"]);
    let r = DetectEncodingCmd::probe_all(&data, &list);
    let found: Vec<&str> = r.iter().map(|m| m.encoding.as_str()).collect();
    assert!(found.contains(&"utf-8"));
    assert!(found.contains(&"windows-1252"));
    // Eleven bytes are never valid UTF-16.
    assert!(!found.contains(&"utf-16le"));
    // ASCII content previews identically under every ASCII-compatible codec.
    assert!(r.iter().all(|m| m.preview == "hello world"));
}

#[test]
fn probe_keeps_list_order() {
    let data = b"abc".to_vec();
    let list = names(&["windows-1252", "utf-8"]);
    let r = DetectEncodingCmd::probe_all(&data, &list);
    assert_eq!(r[0].encoding, "windows-1252");
    assert_eq!(r[1].encoding, "utf-8");
}

#[test]
fn probe_skips_invalid_and_unknown() {
    let data = vec![0xC3];
    let list = names(&["utf-8", "no-such-encoding", "windows-1252"]);
    let r = DetectEncodingCmd::probe_all(&data, &list);
    let found: Vec<&str> = r.iter().map(|m| m.encoding.as_str()).collect();
    // A lone UTF-8 lead byte is a truncated sequence.
    assert!(!found.contains(&"utf-8"));
    assert!(!found.contains(&"no-such-encoding"));
    assert!(found.contains(&"windows-1252"));
}

#[test]
fn probe_matches_single_target_verdict() {
    // Single-target matching under EIgnore agrees with probing, on a buffer
    // that decodes and on one that does not.
    let utf8 = EncodingDescriptor::lookup("utf-8").unwrap();
    let list = names(&["utf-8", "windows-1252"]);
    for data in [b"good text".to_vec(), vec![0x61, 0xFF, 0x62]] {
        let probed = DetectEncodingCmd::probe_all(&data, &list)
            .iter()
            .any(|m| m.encoding == "utf-8");
        let matched = is_same_encoding(&data, &utf8, &EBomPolicy::EIgnore);
        assert_eq!(probed, matched);
    }
}

#[test]
fn probe_registry_covers_known_encodings() {
    let data = b"plain ascii".to_vec();
    let r = DetectEncodingCmd::probe_registry(&data);
    let found: Vec<&str> = r.iter().map(|m| m.encoding.as_str()).collect();
    assert!(found.contains(&"utf-8"));
    assert!(found.contains(&"windows-1252"));
    let reg = registry_names();
    for m in &r {
        assert!(reg.contains(&m.encoding));
    }
}

#[test]
fn registry_names_lists_the_table() {
    let reg = registry_names();
    assert!(reg.iter().any(|n| n == "utf-8"));
    assert!(reg.iter().any(|n| n == "utf-16le"));
    assert!(reg.iter().any(|n| n == "windows-1251"));
    assert!(reg.len() > 10);
}

#[test]
fn preview_stops_at_first_line_break() {
    assert_eq!(first_line_preview(&"line1\nline2".to_string()), "line1");
    assert_eq!(first_line_preview(&"line1\rline2".to_string()), "line1");
    assert_eq!(first_line_preview(&"\nrest".to_string()), "");
    assert_eq!(first_line_preview(&"no break".to_string()), "no break");
    assert_eq!(first_line_preview(&"".to_string()), "");
}

#[test]
fn preview_cuts_at_sixty_characters() {
    let long = "a".repeat(70);
    let p = first_line_preview(&long);
    assert_eq!(p.chars().count(), 60);
    assert_eq!(p, "a".repeat(60));
    let exact = "b".repeat(60);
    assert_eq!(first_line_preview(&exact), exact);
}

#[test]
fn preview_counts_characters_not_bytes() {
    // 59 ASCII characters, then a two-byte character at the cut: the preview
    // keeps it whole, sixty characters long.
    let mut text = "x".repeat(59);
    text.push('\u{00E9}');
    text.push_str("tail");
    let p = first_line_preview(&text);
    assert_eq!(p.chars().count(), 60);
    assert!(p.ends_with('\u{00E9}'));
}
