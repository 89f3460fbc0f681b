use resonance_stream::services::processor::has_batchim;
use resonance_stream::services::translator::contains_japanese;
use resonance_stream::text::{extract_game_text, same_text, trim_text};

#[test]
fn test_batchim_detection() {
    // Test Hangul with batchim (final consonant)
    assert_eq!(has_batchim('각'), true);
    assert_eq!(has_batchim('은'), true);

    // Test Hangul without batchim
    assert_eq!(has_batchim('가'), false);
    assert_eq!(has_batchim('는'), false);

    // Test fallback numeric/english rules
    assert_eq!(has_batchim('1'), true);
    assert_eq!(has_batchim('2'), false);
    assert_eq!(has_batchim('L'), true);
}

#[test]
fn batchim_of_other_syllables() {
    assert_eq!(has_batchim('느'), false);
    assert_eq!(has_batchim('늘'), true);
    assert_eq!(has_batchim('n'), true);
    assert_eq!(has_batchim('a'), false);
}

#[test]
fn test_clean_japanese_text() {
    let input = "こんにちは".as_bytes();
    let result = extract_game_text(input);
    assert_eq!(result, Some("こんにちは".to_string()));
}

#[test]
fn test_ignore_binary_junk() {
    let input = &[0xDE, 0xAD, 0xBE, 0xEF];
    let result = extract_game_text(input);
    assert!(result.is_none());
}

#[test]
fn test_ignore_control_chars() {
    let input = "\n".as_bytes();
    let result = extract_game_text(input);
    assert!(result.is_none());
}

#[test]
fn game_text_is_trimmed_and_needs_two_bytes() {
    assert_eq!(extract_game_text(b"  hi \t"), Some("hi".to_string()));
    assert_eq!(extract_game_text(b" a "), None);
    // One character of two bytes is long enough.
    assert_eq!(extract_game_text("é".as_bytes()), Some("é".to_string()));
    assert_eq!(extract_game_text(b""), None);
    assert_eq!(extract_game_text(b"ab\x07cd"), None);
    // Control characters inside the text are refused, outer white space is not.
    assert_eq!(extract_game_text(b"\nok\n"), Some("ok".to_string()));
}

#[test]
fn trim_removes_unicode_white_space() {
    assert_eq!(trim_text("\u{3000} 本文 \u{2028}"), "本文");
    assert_eq!(trim_text("   "), "");
    assert_eq!(trim_text("a b"), "a b");
}

#[test]
fn same_text_compares_characters() {
    assert!(same_text("abc", "abc"));
    assert!(!same_text("abc", "abd"));
    assert!(!same_text("ab", "abc"));
    assert!(same_text("", ""));
}

#[test]
fn japanese_detection_covers_kana_and_kanji() {
    assert!(contains_japanese("こんにちは"));
    assert!(contains_japanese("カタカナ"));
    assert!(contains_japanese("abc漢字"));
    assert!(!contains_japanese("안녕하세요"));
    assert!(!contains_japanese("hello"));
    assert!(!contains_japanese(""));
    // The block ends at U+9FAF.
    assert!(contains_japanese("\u{9FAF}"));
    assert!(!contains_japanese("\u{9FB0}"));
}

#[test]
fn batchim_on_syllable_block_edges() {
    assert!(!has_batchim('\u{AC00}'));
    assert!(has_batchim('\u{D7A3}'));
    assert!(!has_batchim('a'));
    assert!(has_batchim('0'));
}
