use resonance_stream::ui::dictionary_editor::{add_word, commit_edit, delete_word, set_word};
use resonance_stream::ui::settings::{
    add_keyword, loaded_font_size, remove_keyword, tab_switch_key, tab_switch_modifier,
};

fn words(pairs: &[(&str, &str)]) -> Vec<(String, String)> {
    pairs.iter().map(|(a, b)| (a.to_string(), b.to_string())).collect()
}

#[test]
fn keywords_are_trimmed_deduplicated_and_removed() {
    let mut list = vec!["raid".to_string()];
    assert!(add_keyword(&mut list, "  boss "));
    assert!(add_keyword(&mut list, "raid"));
    assert!(!add_keyword(&mut list, "   "));
    assert_eq!(list, vec!["raid".to_string(), "boss".to_string()]);
    remove_keyword(&mut list, "raid");
    assert_eq!(list, vec!["boss".to_string()]);
    remove_keyword(&mut list, "none");
    assert_eq!(list, vec!["boss".to_string()]);
}

#[test]
fn saved_settings_fall_back_to_defaults() {
    assert_eq!(loaded_font_size(16), 16);
    assert_eq!(loaded_font_size(8), 14);
    assert_eq!(loaded_font_size(0), 14);
    assert_eq!(tab_switch_modifier(""), "Ctrl");
    assert_eq!(tab_switch_modifier("Alt"), "Alt");
    assert_eq!(tab_switch_key(""), "Tab");
    assert_eq!(tab_switch_key("Q"), "Q");
}

#[test]
fn dictionary_words_are_added_edited_and_deleted() {
    let mut w = words(&[("火力", "딜러")]);
    assert!(add_word(&mut w, " 完凸 ", " 풀돌 "));
    assert!(!add_word(&mut w, "x", "  "));
    assert_eq!(w, words(&[("火力", "딜러"), ("完凸", "풀돌")]));
    set_word(&mut w, "火力".to_string(), "화력".to_string());
    assert_eq!(w, words(&[("火力", "화력"), ("完凸", "풀돌")]));
    // Renaming a key keeps its value; the renamed word moves to the end.
    commit_edit(&mut w, "火力", true, " 火 ");
    assert_eq!(w, words(&[("完凸", "풀돌"), ("火", "화력")]));
    // A blank edit changes nothing; a value edit replaces the value.
    commit_edit(&mut w, "完凸", false, "  ");
    commit_edit(&mut w, "完凸", false, "완돌");
    assert_eq!(w, words(&[("完凸", "완돌"), ("火", "화력")]));
    // Renaming a key that is not there changes nothing.
    commit_edit(&mut w, "없음", true, "새");
    delete_word(&mut w, "火");
    assert_eq!(w, words(&[("完凸", "완돌")]));
}
