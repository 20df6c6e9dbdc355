use hokori::hashing::{ContentDigest, partial_hash};
use hokori::json::{Json, parse_json, parse_plist, parse_toml};
use hokori::providers::command::normalize_output;
use sha2::{Digest, Sha256};

#[test]
fn json_documents_become_trees() {
    let Some(doc) = parse_json(r#"{"a": "x", "n": 7, "b": true, "l": [1, null], "a2": -1.5}"#) else {
        panic!("the document is sound");
    };
    assert_eq!(doc.text("a").as_deref(), Some("x"));
    assert_eq!(doc.u64("n"), Some(7));
    assert_eq!(doc.bool("b"), Some(true));
    assert_eq!(doc.array("l").map(|l| l.len()), Some(2));
    assert_eq!(doc.string("missing"), "");
    assert_eq!(doc.u64("a2"), None);
    assert!(doc.get("missing").is_none());
    assert!(parse_json("{").is_none());
}

#[test]
fn property_lists_become_trees() {
    let text = r#"<?xml version="1.0" encoding="UTF-8"?>
<plist version="1.0"><dict><key>CFBundleIdentifier</key><string>org.example.app</string>
<key>Flags</key><array><true/><integer>3</integer></array></dict></plist>"#;
    let Some(doc) = parse_plist(text.as_bytes()) else {
        panic!("the list is sound");
    };
    assert_eq!(doc.text("CFBundleIdentifier").as_deref(), Some("org.example.app"));
    let Some(flags) = doc.array("Flags") else { panic!("an array was expected") };
    assert!(matches!(flags[0], Json::Bool(true)));
    assert!(matches!(flags[1], Json::Null));
    assert!(parse_plist(b"nothing").is_none());
}

#[test]
fn toml_documents_become_trees() {
    let Some(doc) = parse_toml("[toolchain]\nchannel = \"stable\"\n") else {
        panic!("the document is sound");
    };
    let Some(table) = doc.get("toolchain") else { panic!("a table was expected") };
    assert_eq!(table.text("channel").as_deref(), Some("stable"));
    assert!(parse_toml("= 1").is_none());
}

#[test]
fn contents_are_hashed_as_a_whole() {
    let mut digest = ContentDigest::new();
    assert!(digest.take(b"hello "));
    assert!(digest.take(b"world"));
    assert!(!digest.take(b""));
    let expected = Sha256::digest(b"hello world").to_vec();
    assert_eq!(digest.finish(), expected);
}

#[test]
fn samples_of_contents_are_hashed() {
    let a = partial_hash(b"head", b"tail", 100_000);
    let mut all = b"headtail".to_vec();
    all.extend(100_000u64.to_le_bytes());
    assert_eq!(a, Sha256::digest(&all).to_vec());
    assert_ne!(a, partial_hash(b"head", b"tail", 100_001));
    assert_ne!(a, partial_hash(b"head", b"tial", 100_000));
    let mut small = b"head".to_vec();
    small.extend(4u64.to_le_bytes());
    assert_eq!(partial_hash(b"head", b"unread", 4), Sha256::digest(&small).to_vec());
}

#[test]
fn broken_output_is_replaced() {
    assert_eq!(normalize_output(b"ok\xff"), "ok\u{fffd}\n");
    assert_eq!(normalize_output("ä\nb".as_bytes()), "ä\nb\n");
}
