use resonance_stream::io::fs::{export_header, export_line};
use resonance_stream::protocol::types::ExportMessage;
use resonance_stream::services::downloader::hash_matches;
use resonance_stream::services::sniffer::network::{
    choose_local_ip, find_game_interface_ip, lists_interfaces, traffic_stalled, LocalIpChoice,
};
use resonance_stream::services::translator::engine::{
    build_prompt, gpu_layers, next_health_step, translation_from_content, translation_from_reply,
    HealthStep,
};
use resonance_stream::ui::chat_row::{channel_colors, emphasis_segments, relative_time};
use resonance_stream::ui::events::{
    aggregate_limit, channel_limit, clean_chat_text, hydrate_history, is_visible, mentions_keyword,
    route_message, unread_effect, TabViews, UnreadEffect,
};
use resonance_stream::protocol::types::{ChatMessage, SystemMessage};
use resonance_stream::ui::chat_container::{
    level_rank, shows_chat_message, shows_system_line, window_start,
};
use resonance_stream::ui::nav_bar::{cleared_badges, next_tab};
use resonance_stream::ui::utils::is_japanese;

#[test]
fn stickers_and_sprites_are_marked() {
    assert_eq!(clean_chat_text("emojiPic=42"), ("[스티커]".to_string(), true));
    assert_eq!(clean_chat_text("a<sprite=1>b<sprite=22>"), ("a[이모지]b[이모지]".to_string(), true));
    assert_eq!(clean_chat_text("a<sprite=1"), ("a<sprite=1".to_string(), true));
    assert_eq!(clean_chat_text("plain"), ("plain".to_string(), false));
}

#[test]
fn tabs_are_bounded() {
    let limits = vec![
        ("전체".to_string(), 100),
        ("WORLD".to_string(), 2),
        ("PARTY".to_string(), 3),
        ("SYSTEM".to_string(), 50),
    ];
    assert_eq!(aggregate_limit(&limits), 5);
    assert_eq!(aggregate_limit(&vec![("WORLD".to_string(), 0)]), 2000);
    assert_eq!(channel_limit(&limits, "PARTY"), 3);
    assert_eq!(channel_limit(&limits, "GUILD"), 500);

    let filters = vec!["WORLD".to_string()];
    let mut tabs = TabViews::new();
    for pid in 1..=4u64 {
        route_message(&mut tabs, pid, "WORLD", &limits, &filters, 3);
    }
    route_message(&mut tabs, 5, "PARTY", &limits, &filters, 3);
    let tab = |name: &str| -> Vec<u64> {
        tabs.tabs.iter().find(|(n, _)| n == name).map(|(_, t)| t.iter().copied().collect()).unwrap_or_default()
    };
    assert_eq!(tab("전체"), vec![3, 4, 5]);
    assert_eq!(tab("WORLD"), vec![3, 4]);
    assert_eq!(tab("커스텀"), vec![2, 3, 4]);
    assert_eq!(tab("PARTY"), vec![5]);
    assert!(tabs.lists(2));
    assert!(!tabs.lists(1));
}

#[test]
fn visibility_and_unread_counts() {
    let filters = vec!["GUILD".to_string()];
    assert!(is_visible("전체", "WORLD", &filters));
    assert!(is_visible("커스텀", "GUILD", &filters));
    assert!(!is_visible("커스텀", "WORLD", &filters));
    assert!(!is_visible("시스템", "WORLD", &filters));
    assert!(is_visible("파티", "PARTY", &filters));
    assert!(is_visible("월드", "WORLD", &filters));
    assert!(!is_visible("로컬", "WORLD", &filters));
    assert_eq!(unread_effect(true, false), UnreadEffect::CountUnread);
    assert_eq!(unread_effect(false, true), UnreadEffect::CountBadge);
    assert_eq!(unread_effect(true, true), UnreadEffect::Nothing);
    assert!(mentions_keyword("raid at 9", &vec!["raid".to_string()]));
    assert!(!mentions_keyword("hello", &vec!["raid".to_string()]));
    assert!(!mentions_keyword("hello", &Vec::new()));
}

#[test]
fn chat_row_display() {
    assert_eq!(channel_colors("GUILD"), ("text-emerald-500", "border-l-emerald-500"));
    assert_eq!(channel_colors("???"), ("text-base-content", "border-l-base-content"));
    assert_eq!(relative_time(95, 100), "now");
    assert_eq!(relative_time(0, 45), "45s");
    assert_eq!(relative_time(0, 65), "1m");
    assert_eq!(relative_time(0, 3700), "1h 1m");
    assert_eq!(relative_time(0, 7200), "2h");
    assert_eq!(relative_time(0, 90000), "1d");
    assert_eq!(relative_time(200, 100), "now");
    // Milliseconds on either side.
    assert_eq!(relative_time(20_000_000_000, 20_000_120), "2m");
    assert_eq!(
        emphasis_segments("hello world", &vec!["world".to_string(), "lo".to_string()]),
        vec![
            ("hel".to_string(), false),
            ("lo".to_string(), true),
            (" ".to_string(), false),
            ("world".to_string(), true)
        ]
    );
    assert_eq!(emphasis_segments("abc", &Vec::new()), vec![("abc".to_string(), false)]);
    assert_eq!(emphasis_segments("abab", &vec!["ab".to_string()]), vec![("ab".to_string(), true), ("ab".to_string(), true)]);
    assert!(is_japanese("ひらがな"));
    assert!(!is_japanese("abc"));
}

#[test]
fn network_interface_choice() {
    let ifs = vec![
        ("Loopback Pseudo-Interface".to_string(), Some([127, 0, 0, 1])),
        ("vEthernet (WSL)".to_string(), Some([172, 20, 0, 1])),
        ("Ethernet".to_string(), Some([169, 254, 1, 1])),
        ("Ethernet 2".to_string(), None),
        ("Wi-Fi".to_string(), Some([192, 168, 0, 5])),
    ];
    assert_eq!(find_game_interface_ip(&ifs), Some([192, 168, 0, 5]));
    assert_eq!(find_game_interface_ip(&ifs[..4].to_vec()), None);
    assert!(traffic_stalled(100, 80));
    assert!(!traffic_stalled(100, 85));
    assert!(!traffic_stalled(100, 0));
    assert!(matches!(choose_local_ip("10.0.0.2", Some([10, 0, 0, 2]), None), LocalIpChoice::Manual([10, 0, 0, 2])));
    assert!(matches!(choose_local_ip("x", None, None), LocalIpChoice::InvalidManualFallback([127, 0, 0, 1])));
    assert!(matches!(choose_local_ip("", None, Some([1, 2, 3, 4])), LocalIpChoice::Auto([1, 2, 3, 4])));
    assert!(matches!(choose_local_ip("", None, None), LocalIpChoice::NotFound));
    assert!(lists_interfaces("DEBUG"));
    assert!(!lists_interfaces("warn"));
}

#[test]
fn translation_requests_and_replies() {
    let p = build_prompt("こんにちは");
    assert!(p.starts_with("<bos><start_of_turn>user\n"));
    assert!(p.ends_with("こんにちは<end_of_turn>\n<start_of_turn>model\n"));
    assert_eq!(translation_from_reply(None), "[AI Server Connection Error]");
    assert_eq!(
        translation_from_reply(Some(r#"{"choices": [{"message": {"content": "116 정찰 우측 은나포"}}]}"#)),
        "116 정찰 우측 은나포"
    );
    assert_eq!(translation_from_reply(Some(r#"{"choices": [{"message": {"content": "  안녕 "}}]}"#)), "안녕");
    assert_eq!(translation_from_reply(Some("oops")), "[AI Server Parsing Error]");
    assert_eq!(translation_from_reply(Some(r#"{"content": "안녕"}"#)), "[AI Server Parsing Error]");
    assert_eq!(translation_from_reply(Some(r#"{"choices": [{"message": {"content": 3}}]}"#)), "[AI Server Parsing Error]");
    assert_eq!(gpu_layers("GPU", "Very High"), "99");
    assert_eq!(gpu_layers("gpu", "low"), "12");
    assert_eq!(gpu_layers("gpu", "weird"), "24");
    assert_eq!(gpu_layers("cpu", "high"), "0");
    assert_eq!(next_health_step(3, true), HealthStep::Ready);
    assert_eq!(next_health_step(3, false), HealthStep::Retry);
    assert_eq!(next_health_step(30, true), HealthStep::GiveUp);
}

#[test]
fn export_and_hash_checks() {
    let log = ExportMessage {
        channel: "WORLD".to_string(),
        nickname: "Bob".to_string(),
        message: "hi".to_string(),
        translated: Some("안녕".to_string()),
        timestamp: 0,
    };
    assert_eq!(export_line("2024-01-01 00:00:00", &log), "[2024-01-01 00:00:00] [WORLD] Bob: hi -> 안녕");
    let plain = ExportMessage { translated: None, ..log };
    assert_eq!(export_line("t", &plain), "[t] [WORLD] Bob: hi");
    assert_eq!(export_header("now"), "=== BPSR Translator Chat Export (now) ===");
    assert!(hash_matches("ABCdef01", "abcDEF01"));
    assert!(!hash_matches("abc", "abcd"));
    assert!(!hash_matches("abc", "abd"));
}

#[test]
fn system_tab_filters() {
    let line = SystemMessage {
        pid: 1,
        timestamp: 0,
        level: "warn".to_string(),
        source: "Sniffer".to_string(),
        message: "No Game Traffic".to_string(),
    };
    assert_eq!(level_rank("trace"), 0);
    assert_eq!(level_rank("success"), 2);
    assert_eq!(level_rank("???"), 2);
    assert!(shows_system_line(&line, "info", None, None, ""));
    assert!(!shows_system_line(&line, "error", None, None, ""));
    assert!(shows_system_line(&line, "debug", Some("warn"), Some("Sniffer"), "GAME"));
    assert!(!shows_system_line(&line, "debug", Some("info"), None, ""));
    assert!(!shows_system_line(&line, "debug", None, Some("Backend"), ""));
    assert!(!shows_system_line(&line, "debug", None, None, "raid"));
    assert_eq!(window_start(120, 50), 70);
    assert_eq!(window_start(20, 50), 0);
}

#[test]
fn chat_tab_filters_and_switching() {
    let filters = vec!["WORLD".to_string(), "GUILD".to_string()];
    assert!(shows_chat_message("전체", &filters, "", "PARTY", "Bob", "hi"));
    assert!(shows_chat_message("전체", &filters, "BOB", "PARTY", "bob", "hi"));
    assert!(shows_chat_message("전체", &filters, "HI", "PARTY", "x", "Hi there"));
    assert!(!shows_chat_message("전체", &filters, "zz", "PARTY", "x", "hi"));
    assert!(!shows_chat_message("커스텀", &filters, "", "PARTY", "x", "hi"));
    assert!(!shows_chat_message("시스템", &filters, "", "PARTY", "x", "hi"));
    assert_eq!(next_tab("커스텀"), "월드");
    assert_eq!(next_tab("로컬"), "커스텀");
    assert_eq!(next_tab("전체"), "커스텀");
    assert_eq!(cleared_badges("커스텀", &filters), filters);
    assert_eq!(cleared_badges("길드", &filters), vec!["GUILD".to_string()]);
    assert!(cleared_badges("전체", &filters).is_empty());
}

#[test]
fn five_shortcut_presses_return_to_the_same_tab() {
    for start in ["커스텀", "월드", "길드", "파티", "로컬"] {
        let mut tab = start;
        for _ in 0..5 {
            tab = next_tab(tab);
        }
        assert_eq!(tab, start);
    }
    assert_eq!(next_tab("월드"), "길드");
    assert_eq!(next_tab("길드"), "파티");
    assert_eq!(next_tab("파티"), "로컬");
}

#[test]
fn content_is_trimmed_or_marked_missing() {
    assert_eq!(translation_from_content(Some("  안녕하세요 \n".to_string())), "안녕하세요");
    assert_eq!(translation_from_content(None), "[AI Server Parsing Error]");
}

fn tab_pids(tabs: &TabViews, name: &str) -> Vec<u64> {
    tabs.tabs.iter().find(|(n, _)| n == name).map(|(_, t)| t.iter().copied().collect()).unwrap_or_default()
}

#[test]
fn restored_history_fills_the_tabs_within_the_limit() {
    let msg = |pid: u64, channel: &str, text: &str| ChatMessage {
        pid,
        channel: channel.to_string(),
        message: text.to_string(),
        ..Default::default()
    };
    let history = vec![
        msg(1, "WORLD", "emojiPic=3"),
        msg(2, "GUILD", "a<sprite=1>b"),
        msg(3, "WORLD", "hi"),
        msg(4, "PARTY", "yo"),
    ];
    let filters = vec!["GUILD".to_string()];
    let (kept, tabs) = hydrate_history(&history, 2, &filters);
    assert_eq!(tab_pids(&tabs, "전체"), vec![3, 4]);
    assert_eq!(tab_pids(&tabs, "WORLD"), vec![1, 3]);
    assert_eq!(tab_pids(&tabs, "GUILD"), vec![2]);
    assert_eq!(tab_pids(&tabs, "커스텀"), vec![2]);
    assert_eq!(tab_pids(&tabs, "PARTY"), vec![4]);
    let texts: Vec<(u64, String)> = kept.iter().map(|m| (m.pid, m.message.clone())).collect();
    assert_eq!(
        texts,
        vec![
            (1, "[스티커]".to_string()),
            (2, "a[이모지]b".to_string()),
            (3, "hi".to_string()),
            (4, "yo".to_string())
        ]
    );
    let (kept, _) = hydrate_history(&history, 1, &Vec::new());
    let pids: Vec<u64> = kept.iter().map(|m| m.pid).collect();
    assert_eq!(pids, vec![2, 3, 4]);
}
