use resonance_stream::io::data_factory::recent_history;
use resonance_stream::protocol::types::{ChatMessage, MessageResponse, NicknameResponse, SystemLogLevel};
use resonance_stream::python_translator::{
    apply_message_response, apply_nickname_response, batch_archive_entries, batch_command,
    classify_sidecar_line, sidecar_stderr_message, translate_nickname, BatchBuffer, SidecarLine,
};
use resonance_stream::protocol::types::TranslationResult;
use resonance_stream::state::{
    block_user, unblock_user, inject_system_message, store_and_emit, AppState, DedupeWindow, NicknameCache, SystemHistory,
    SYSTEM_HISTORY_LIMIT,
};

fn message(pid: u64, text: &str) -> ChatMessage {
    ChatMessage { pid, uid: pid, message: text.to_string(), nickname: format!("n{}", pid), ..Default::default() }
}

#[test]
fn system_log_keeps_the_newest_two_hundred_lines() {
    let mut state = AppState::new();
    for i in 0..(SYSTEM_HISTORY_LIMIT + 5) {
        let line = inject_system_message(&mut state, SystemLogLevel::Warning, "Sniffer", format!("line {}", i), 42);
        assert_eq!(line.level, "warn");
        assert_eq!(line.pid, (i + 1) as u64);
    }
    let lines = state.system_history.messages();
    assert_eq!(lines.len(), SYSTEM_HISTORY_LIMIT);
    assert_eq!(lines[0].message, "line 5");
    assert_eq!(lines.last().unwrap().message, format!("line {}", SYSTEM_HISTORY_LIMIT + 4));
    assert_eq!(lines[0].source, "Sniffer");
}

#[test]
fn log_level_names() {
    let mut h = SystemHistory::new();
    let mut state = AppState::new();
    let levels = [
        (SystemLogLevel::Info, "info"),
        (SystemLogLevel::Warning, "warn"),
        (SystemLogLevel::Error, "error"),
        (SystemLogLevel::Success, "success"),
        (SystemLogLevel::Debug, "debug"),
        (SystemLogLevel::Trace, "trace"),
    ];
    for (level, name) in levels {
        let line = inject_system_message(&mut state, level, "x", String::new(), 0);
        assert_eq!(line.level, name);
        h.push(line);
    }
    assert_eq!(h.messages().len(), 6);
    h.clear();
    assert!(h.messages().is_empty());
}

#[test]
fn pid_counter_wraps_around() {
    let mut state = AppState::new();
    state.next_pid = u64::MAX;
    assert_eq!(state.take_pid(), u64::MAX);
    assert_eq!(state.take_pid(), 0);
}

#[test]
fn dedupe_window_forgets_after_two_seconds() {
    let mut w = DedupeWindow::new();
    assert!(w.arrive(1, 1000));
    assert!(w.arrive(2, 1500));
    assert!(!w.arrive(1, 3000));
    assert!(w.arrive(1, 3001));
    // Time running backwards counts as no time passed.
    assert!(!w.arrive(2, 0));
}

#[test]
fn nickname_cache_reads_what_was_written() {
    let mut c = NicknameCache::new();
    assert_eq!(c.get("あ"), None);
    c.insert("あ".to_string(), "A".to_string());
    c.insert("い".to_string(), "I".to_string());
    c.insert("あ".to_string(), "Aa".to_string());
    assert_eq!(c.get("あ"), Some("Aa".to_string()));
    assert_eq!(c.get("い"), Some("I".to_string()));
}

#[test]
fn hydrate_restores_messages_and_moves_the_counter() {
    let days = vec![vec![message(1, "a"), message(7, "b")], vec![message(3, "c")]];
    let (msgs, max_pid) = recent_history(&days, 2);
    let pids: Vec<u64> = msgs.iter().map(|m| m.pid).collect();
    assert_eq!(pids, vec![7, 3]);
    assert_eq!(max_pid, 7);
    let mut state = AppState::new();
    state.hydrate(&msgs, max_pid);
    assert_eq!(state.next_pid, 8);
    assert_eq!(state.chat_history.len(), 2);
    // A zero limit still restores the newest message.
    let (msgs, max_pid) = recent_history(&days, 0);
    assert_eq!(msgs.len(), 1);
    assert_eq!(max_pid, 3);
    let (msgs, max_pid) = recent_history(&Vec::new(), 5);
    assert!(msgs.is_empty());
    assert_eq!(max_pid, 0);
    state.clear_chat_history();
    assert_eq!(state.chat_history.len(), 0);
}

#[test]
fn batch_buffer_sends_five_at_once() {
    let mut b = BatchBuffer::new();
    for i in 0..4u64 {
        assert!(b.buffer_message(i, format!("t{}", i), 100 + i).is_none());
    }
    assert_eq!(b.last_activity, 103);
    assert_eq!(b.watchdog_wait_ms(603), 500);
    assert_eq!(b.watchdog_wait_ms(5000), 0);
    let batch = b.buffer_message(4, "t4".to_string(), 200).unwrap();
    assert_eq!(batch.len(), 5);
    assert_eq!(batch[0].cmd, "translate");
    assert_eq!(batch[4].pid, 4);
    assert_eq!(b.last_activity, 0);
    assert!(b.flush_stale().is_none());
    b.buffer_message(9, "x".to_string(), 7);
    let stale = b.flush_stale().unwrap();
    assert_eq!(stale.len(), 1);
    assert_eq!(batch_command(true), "translate_and_save");
    assert_eq!(batch_command(false), "batch_translate");
}

#[test]
fn sidecar_output_is_classified() {
    assert_eq!(classify_sidecar_line(Some("status")), SidecarLine::Info);
    assert_eq!(classify_sidecar_line(Some("info")), SidecarLine::Info);
    assert_eq!(classify_sidecar_line(Some("error")), SidecarLine::Error);
    assert_eq!(classify_sidecar_line(Some("result")), SidecarLine::Result);
    assert_eq!(classify_sidecar_line(Some("batch_result")), SidecarLine::BatchResult);
    assert_eq!(classify_sidecar_line(Some("debug")), SidecarLine::Debug);
    assert_eq!(classify_sidecar_line(Some("other")), SidecarLine::Unknown);
    assert_eq!(classify_sidecar_line(None), SidecarLine::Unknown);
    assert_eq!(
        sidecar_stderr_message("x ImportError: DLL load failed y"),
        "Missing Visual C++ Redistributable."
    );
    assert_eq!(sidecar_stderr_message("CUDA error: out of memory"), "GPU Memory Out. Try lowering the Tier.");
    assert_eq!(sidecar_stderr_message("boom"), "Crash: boom");
}

#[test]
fn sidecar_replies_update_the_state() {
    let mut state = AppState::new();
    store_and_emit(&mut state, message(1, "こんにちは"), 0, 10);
    // The cache answers when it can.
    match translate_nickname(&state.nickname_cache, 1, "n1".to_string()) {
        Err(req) => assert_eq!(req.cmd, "nickname_only"),
        Ok(_) => panic!("nothing cached yet"),
    }
    apply_nickname_response(&mut state, &NicknameResponse { pid: 1, nickname: "n1".to_string(), romaji: "Enu".to_string() });
    match translate_nickname(&state.nickname_cache, 5, "n1".to_string()) {
        Ok(resp) => {
            assert_eq!(resp.pid, 5);
            assert_eq!(resp.romaji, "Enu");
        }
        Err(_) => panic!("cached"),
    }
    apply_message_response(&mut state, &MessageResponse { pid: 1, translated: "안녕".to_string() });
    assert_eq!(state.chat_history.get(1).unwrap().translated, Some("안녕".to_string()));
    // Unknown pids change nothing.
    apply_message_response(&mut state, &MessageResponse { pid: 9, translated: "x".to_string() });
    assert!(state.chat_history.get(9).is_none());
    let entries = batch_archive_entries(
        &state.chat_history,
        &vec![
            TranslationResult { pid: 1, translated: "안녕".to_string() },
            TranslationResult { pid: 2, translated: "?".to_string() },
        ],
    );
    assert_eq!(entries[0], Some((1, "こんにちは".to_string(), "안녕".to_string())));
    assert_eq!(entries[1], None);
}

#[test]
fn blocking_a_sender_marks_its_messages_and_records_it() {
    let mut state = AppState::new();
    state.chat_history.insert(message(1, "a"));
    state.chat_history.insert(ChatMessage { pid: 2, uid: 1, message: "b".to_string(), ..Default::default() });
    state.chat_history.insert(message(3, "c"));
    let changed = block_user(&mut state, 1, "n1".to_string());
    let pids: Vec<u64> = changed.iter().map(|m| m.pid).collect();
    assert_eq!(pids, vec![1, 2]);
    assert!(changed.iter().all(|m| m.is_blocked));
    assert_eq!(state.blocked_users.get(&1), Some(&"n1".to_string()));
    assert!(!state.chat_history.get(3).unwrap().is_blocked);
    assert!(block_user(&mut state, 1, "n1".to_string()).is_empty());
    let changed = unblock_user(&mut state, 1);
    assert_eq!(changed.len(), 2);
    assert!(state.blocked_users.is_empty());
    assert!(!state.chat_history.get(1).unwrap().is_blocked);
}

#[test]
fn sidecar_starts_only_when_translation_is_on() {
    assert_eq!(resonance_stream::python_translator::sidecar_startup(true), None);
    assert_eq!(
        resonance_stream::python_translator::sidecar_startup(false),
        Some("Translation is disabled in settings. Skipping startup.".to_string())
    );
}

#[test]
fn a_running_sniffer_is_not_started_twice() {
    let mut guard = resonance_stream::services::sniffer::SnifferGuard::new();
    assert!(guard.try_start());
    assert!(!guard.try_start());
    guard.stopped();
    assert!(guard.try_start());
}
