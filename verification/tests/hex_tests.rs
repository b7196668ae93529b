use metrics_core::hexstr::decode_hex;
use metrics_core::signature::{signature_without_labels, LabelValue};

#[test]
fn signature_hex_round_trips() {
    let l = vec![
        ("job".to_string(), LabelValue::Text("api".to_string())),
        ("instance".to_string(), LabelValue::Text("a".to_string())),
    ];
    let e: Vec<String> = Vec::new();
    let sig = signature_without_labels(&l, &e).unwrap();
    let hex = sig.to_hex();
    assert_eq!(hex.len(), 64);
    assert!(hex.chars().all(|c| c.is_ascii_lowercase() || c.is_ascii_digit()));
    let decoded = decode_hex(&hex).unwrap();
    assert_eq!(decoded, sig.bytes());
}

#[test]
fn decode_known_values() {
    assert_eq!(decode_hex("00ff"), Some(vec![0u8, 255u8]));
    assert_eq!(decode_hex(""), Some(Vec::new()));
    // decoding accepts uppercase digits too
    assert_eq!(decode_hex("ABCD"), Some(vec![0xabu8, 0xcdu8]));
}

#[test]
fn decode_rejects_bad_input() {
    // odd length
    assert_eq!(decode_hex("abc"), None);
    // a character that is no hexadecimal digit
    assert_eq!(decode_hex("zz"), None);
}
