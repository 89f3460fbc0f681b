use resonance_stream::services::processor::{
    capitalize_words, convert_to_romaji, dictionary_from_entries, join_pieces, load_dictionary,
    postprocess_text, preprocess_text, sort_by_key_length, ShieldData,
};
use resonance_stream::text::{contains_text, decimal, replace_text};

fn dict(pairs: &[(&str, &str)]) -> Vec<(String, String)> {
    pairs.iter().map(|(a, b)| (a.to_string(), b.to_string())).collect()
}

#[test]
fn test_shielding_pipeline() {
    let custom_dict = dict(&[("火力", "딜러"), ("完凸", "풀돌")]);

    let original_text = "【火力】@azururu 完凸 3周 <think>LLM is thinking...</think>";

    // 1. Test Preprocessor
    let shield = preprocess_text(original_text, &custom_dict, Some("Azururu"), Some("azururu"));

    // Ensure the original terms are no longer in the masked text
    assert!(!shield.masked_text.contains("火力"));
    assert!(!shield.masked_text.contains("【"));
    assert!(!shield.masked_text.contains("3周"));

    // Ensure the dictionary captured the correct replacements
    let vals: Vec<&String> = shield.replacements.iter().map(|(_, v)| v).collect();
    assert!(vals.contains(&&"【".to_string()));
    assert!(vals.contains(&&"딜러".to_string()));
    assert!(vals.contains(&&"풀돌".to_string()));
    assert!(vals.contains(&&"3주".to_string())); // 3周 -> 3주

    // 2. Test Postprocessor (Simulating LLM output)
    // We pretend the LLM translated the text but left the [P0] tags intact
    let simulated_llm_output = shield.masked_text.clone();
    let final_result = postprocess_text(&simulated_llm_output, &shield);

    // The <think> tag should be stripped, and placeholders restored
    assert_eq!(final_result, "【딜러】@azururu 풀돌 3주");
}

#[test]
fn shielding_layout_and_name_outside_tags() {
    let custom_dict = dict(&[("火力", "딜러"), ("完凸", "풀돌")]);
    let shield = preprocess_text("【火力】@azururu 完凸 3周", &custom_dict, Some("Azururu"), Some("azururu"));
    assert_eq!(shield.masked_text, "[P0][P3][P1][P2] [P4] [P5]");
    assert_eq!(shield.replacements[2].1, "@azururu");
    // Outside an @-tag the sender's name becomes its romaji.
    let shield = preprocess_text("azururu さん", &Vec::new(), Some("Azururu"), Some("azururu"));
    assert_eq!(shield.masked_text, "Azururu さん");
}

#[test]
fn restoring_puts_longer_placeholders_first() {
    let mut replacements = Vec::new();
    for i in 0..11 {
        replacements.push((format!("[P{}]", i), format!("w{}", i)));
    }
    let shield = ShieldData { masked_text: String::new(), replacements };
    assert_eq!(postprocess_text("[P10] [P1]", &shield), "w10 w1");
}

#[test]
fn postprocess_cleans_spacing() {
    let shield = ShieldData { masked_text: String::new(), replacements: Vec::new() };
    assert_eq!(postprocess_text("  안녕   하세요 !  <think>x\ny</think>  잘가 ,  ", &shield), "안녕 하세요! 잘가,");
}

#[test]
fn counters_become_korean() {
    let shield = preprocess_text("2種 4人 1回", &Vec::new(), None, None);
    assert_eq!(shield.masked_text, "[P0] [P1] [P2]");
    let vals: Vec<String> = shield.replacements.iter().map(|(_, v)| v.clone()).collect();
    assert_eq!(vals, vec!["2종", "4인", "1회"]);
}

#[test]
fn dictionary_terms_longest_first() {
    let sorted = sort_by_key_length(dict(&[("a", "1"), ("abc", "3"), ("ab", "2"), ("xyz", "4")]));
    let keys: Vec<&str> = sorted.iter().map(|(k, _)| k.as_str()).collect();
    assert_eq!(keys, vec!["abc", "xyz", "ab", "a"]);
    let shield = preprocess_text("abc ab", &dict(&[("ab", "둘"), ("abc", "셋")]), None, None);
    assert_eq!(shield.masked_text, "[P0] [P1]");
    assert_eq!(shield.replacements[0].1, "셋");
    assert_eq!(shield.replacements[1].1, "둘");
}

#[test]
fn dictionary_file_is_read_leniently() {
    let d = load_dictionary(r#"{"data": {"火力": "딜러", "【": "x", "n": 1}, "v": 2}"#);
    assert_eq!(d, vec![("火力".to_string(), "딜러".to_string())]);
    assert!(load_dictionary("   ").is_empty());
    assert!(load_dictionary("{not json").is_empty());
    assert!(load_dictionary(r#"{"words": {}}"#).is_empty());
}

#[test]
fn romaji_names_are_capitalized() {
    assert_eq!(capitalize_words("hello  world "), "Hello World");
    assert_eq!(capitalize_words(""), "");
    assert_eq!(capitalize_words("   "), "");
    let r = convert_to_romaji("あずるる");
    assert_eq!(r, "Azururu");
}

#[test]
fn text_helpers() {
    assert_eq!(decimal(0), "0");
    assert_eq!(decimal(1234), "1234");
    assert_eq!(decimal(u64::MAX), u64::MAX.to_string());
    assert_eq!(replace_text("aaa", "a", "b"), "bbb");
    assert_eq!(replace_text("aaaa", "aa", "b"), "bb");
    assert_eq!(replace_text("abc", "", "-"), "-a-b-c-");
    assert_eq!(replace_text("abc", "x", "-"), "abc");
    assert!(contains_text("abc", ""));
    assert!(contains_text("abc", "bc"));
    assert!(!contains_text("abc", "cb"));
}

#[test]
fn dictionary_keeps_string_terms_outside_the_brackets() {
    let entries = vec![
        ("火力".to_string(), Some("딜러".to_string())),
        ("【".to_string(), Some("[".to_string())),
        ("数".to_string(), None),
        ("完凸".to_string(), Some("풀돌".to_string())),
    ];
    assert_eq!(dictionary_from_entries(&entries), dict(&[("火力", "딜러"), ("完凸", "풀돌")]));
    assert!(dictionary_from_entries(&Vec::new()).is_empty());
}

#[test]
fn pieces_are_joined_with_their_fills() {
    let pieces = vec!["a".to_string(), "b".to_string(), "".to_string()];
    let fills = vec!["[P0]".to_string(), "[P1]".to_string()];
    assert_eq!(join_pieces(&pieces, &fills), "a[P0]b[P1]");
    assert_eq!(join_pieces(&vec!["only".to_string()], &Vec::new()), "only");
}
