use metrics_core::errors::MetricsError;
use metrics_core::signature::{signature_without_labels, LabelValue};

fn text(s: &str) -> LabelValue {
    LabelValue::Text(s.to_string())
}

fn labels(pairs: &[(&str, &str)]) -> Vec<(String, LabelValue)> {
    pairs.iter().map(|(n, v)| (n.to_string(), text(v))).collect()
}

fn names(ns: &[&str]) -> Vec<String> {
    ns.iter().map(|n| n.to_string()).collect()
}

#[test]
fn same_pairs_different_insertion_order_hash_identically() {
    let l1 = labels(&[("a", "1"), ("b", "2"), ("c", "3")]);
    let l2 = labels(&[("c", "3"), ("a", "1"), ("b", "2")]);
    let e = names(&[]);
    let s1 = signature_without_labels(&l1, &e).unwrap();
    let s2 = signature_without_labels(&l2, &e).unwrap();
    assert_eq!(s1, s2);
}

#[test]
fn excluded_name_does_not_affect_identity() {
    // the concrete scenario: an extra excluded key present only in the first
    // set, and a different insertion order, must not change the signature
    let l1 = labels(&[
        ("job", "api"),
        ("__name__", "http_requests_total"),
        ("instance", "a"),
    ]);
    let l2 = labels(&[("instance", "a"), ("job", "api")]);
    let e = names(&["__name__"]);
    let s1 = signature_without_labels(&l1, &e).unwrap();
    let s2 = signature_without_labels(&l2, &e).unwrap();
    assert_eq!(s1, s2);
}

#[test]
fn differing_pairs_hash_differently_over_a_large_sample() {
    // collision resistance is statistical: over a few hundred distinct label
    // sets, every signature must be distinct
    let e = names(&[]);
    let mut seen: Vec<String> = Vec::new();
    for i in 0..100 {
        let l = labels(&[("job", &format!("job-{i}")), ("instance", "a")]);
        seen.push(signature_without_labels(&l, &e).unwrap().to_hex());
        let l = labels(&[("job", "api"), ("instance", &format!("host-{i}"))]);
        seen.push(signature_without_labels(&l, &e).unwrap().to_hex());
    }
    let mut sorted = seen.clone();
    sorted.sort();
    sorted.dedup();
    assert_eq!(sorted.len(), seen.len());
}

#[test]
fn value_and_name_are_both_part_of_identity() {
    let e = names(&[]);
    let s1 = signature_without_labels(&labels(&[("a", "x")]), &e).unwrap();
    let s2 = signature_without_labels(&labels(&[("a", "y")]), &e).unwrap();
    let s3 = signature_without_labels(&labels(&[("b", "x")]), &e).unwrap();
    assert_ne!(s1, s2);
    assert_ne!(s1, s3);
    assert_ne!(s2, s3);
}

#[test]
fn empty_label_set_hashes_the_empty_input() {
    // the canonical input of an empty label set is empty, so the signature
    // must be the BLAKE3 digest of no bytes at all
    let l: Vec<(String, LabelValue)> = Vec::new();
    let e = names(&[]);
    let s = signature_without_labels(&l, &e).unwrap();
    assert_eq!(
        s.to_hex(),
        "af1349b9f5f9a1a6a0404dea36dcc9499bcb25c9adc112b7cc9a93cae41f3262"
    );
}

#[test]
fn canonical_input_matches_an_independent_hash() {
    // recompute the digest with the hash crate directly over the canonical
    // byte layout (sorted by name, name bytes then value bytes per pair)
    let l = labels(&[("z", "26"), ("a", "1")]);
    let e = names(&[]);
    let s = signature_without_labels(&l, &e).unwrap();
    let expected = blake3::hash(b"a1z26");
    assert_eq!(s.bytes(), expected.as_bytes().to_vec());
}

#[test]
fn non_text_value_is_a_type_mismatch() {
    let l = vec![
        ("job".to_string(), text("api")),
        ("weird".to_string(), LabelValue::Other),
    ];
    let e = names(&[]);
    let r = signature_without_labels(&l, &e);
    assert!(matches!(r, Err(MetricsError::TypeMismatch)));
}

#[test]
fn non_text_value_under_an_excluded_name_is_skipped() {
    let l = vec![
        ("job".to_string(), text("api")),
        ("weird".to_string(), LabelValue::Other),
    ];
    let e = names(&["weird"]);
    let with_other = signature_without_labels(&l, &e).unwrap();
    let without = signature_without_labels(&labels(&[("job", "api")]), &names(&[])).unwrap();
    assert_eq!(with_other, without);
}
