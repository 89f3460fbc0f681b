use resonance_stream::services::downloader::integrity::{model_hash_matches, FileHasher};
use resonance_stream::services::downloader::{dict_update_needed, dictionary_payload_valid, dictionary_version};

const ABC_SHA256: &str = "ba7816bf8f01cfea414140de5dae2223b00361a396177a9cb410ff61f20015ad";

#[test]
fn file_hash_over_chunks_is_the_digest_of_all_bytes() {
    let mut whole = FileHasher::new();
    whole.update(b"abc");
    assert_eq!(whole.finish(), ABC_SHA256);

    let mut chunked = FileHasher::new();
    chunked.update(b"a");
    chunked.update(b"");
    chunked.update(b"bc");
    assert_eq!(chunked.finish(), ABC_SHA256);

    let empty = FileHasher::new();
    assert_eq!(empty.finish(), "e3b0c44298fc1c149afbf4c8996fb92427ae41e4649b934ca495991b7852b855");
}

#[test]
fn model_hash_is_compared_without_case() {
    let mut h = FileHasher::new();
    h.update(b"abc");
    assert!(model_hash_matches(h, &ABC_SHA256.to_uppercase()));
    let mut h = FileHasher::new();
    h.update(b"abd");
    assert!(!model_hash_matches(h, ABC_SHA256));
}

#[test]
fn dictionary_update_compares_versions() {
    let remote = r#"{"version": "1.0.5", "data": {}}"#;
    assert_eq!(dict_update_needed(remote, None), Some(true));
    assert_eq!(dict_update_needed(remote, Some(r#"{"version": "1.0.4"}"#)), Some(true));
    assert_eq!(dict_update_needed(remote, Some(r#"{"version": "1.0.5"}"#)), Some(false));
    // A local file that is broken or has no version counts as "0.0.0".
    assert_eq!(dict_update_needed(r#"{"data": {}}"#, Some("not json")), Some(false));
    assert_eq!(dict_update_needed(r#"{"version": "0.0.0"}"#, Some("{}")), Some(false));
    assert_eq!(dict_update_needed("<html>", None), None);
    assert_eq!(dictionary_version(r#"{"version": 3}"#), "0.0.0");
    assert_eq!(dictionary_version(remote), "1.0.5");
}

#[test]
fn dictionary_payload_must_be_json() {
    assert!(dictionary_payload_valid(r#"{"data": {"火力": "딜러"}}"#));
    assert!(!dictionary_payload_valid("404: Not Found"));
}
