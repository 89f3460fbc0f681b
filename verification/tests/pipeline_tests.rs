use etherparse::PacketBuilder;
use resonance_stream::protocol::types::ChatMessage;
use resonance_stream::services::sniffer::message_processor::{MessageProcessor, ProcessAction};
use resonance_stream::services::sniffer::pipeline::{feeds_watchdog_of, ChatPipeline, PipelineAction};
use resonance_stream::services::sniffer::{dispatch_pipeline_action, DispatchEffect};
use resonance_stream::state::{store_and_emit, AppState};
use std::collections::HashMap;

#[test]
fn test_message_processor_deduplication() {
    let mut processor = MessageProcessor::new();
    let blocked = HashMap::new();

    let mut msg1 = ChatMessage { uid: 100, timestamp: 5000, sequence_id: 1, pid: 1, ..Default::default() };
    let mut msg2 = ChatMessage { uid: 100, timestamp: 5000, sequence_id: 1, pid: 2, ..Default::default() };

    match processor.process(&mut msg1, &blocked) {
        ProcessAction::EmitNewMessage => processor.commit_new_message(&msg1),
        _ => panic!("Expected new message"),
    }

    match processor.process(&mut msg2, &blocked) {
        ProcessAction::IgnoreDuplicate => {}
        _ => panic!("Expected duplicate to be ignored"),
    }
}

#[test]
fn test_message_processor_blocking() {
    let mut processor = MessageProcessor::new();

    let mut blocked = HashMap::new();
    blocked.insert(999, "Spammer".to_string());

    let mut msg = ChatMessage { uid: 999, message: "Buy gold!".to_string(), ..Default::default() };

    match processor.process(&mut msg, &blocked) {
        ProcessAction::EmitNewMessage => {
            assert_eq!(msg.is_blocked, true);
        }
        _ => panic!("Expected new message"),
    }
}

fn chat_packet() -> Vec<u8> {
    let tcp_payload = vec![
        0x00, 0x00, 0x00, 0x00, // application header
        0x0A, 0x14, // root, 20 bytes
        0x12, 0x12, // chat payload, 18 bytes
        0x08, 0xE7, 0x07, // sequence id 999
        0x12, 0x07, 0x08, 0x64, 0x12, 0x03, 0x42, 0x6F, 0x62, // sender: uid 100, "Bob"
        0x22, 0x04, 0x1A, 0x02, 0x48, 0x69, // message "Hi"
    ];
    let builder = PacketBuilder::ipv4([192, 168, 1, 1], [192, 168, 1, 2], 64).tcp(5003, 12345, 1, 0);
    let mut packet = Vec::<u8>::new();
    builder.write(&mut packet, &tcp_payload).unwrap();
    packet
}

#[test]
fn test_full_chat_pipeline() {
    let mut pipeline = ChatPipeline::new();
    let blocked_users = HashMap::new();

    let fake_network_packet = chat_packet();
    let actions = pipeline.feed_network_packet(&fake_network_packet, &blocked_users, || {});

    assert_eq!(actions.len(), 1);
    if let PipelineAction::EmitNewMessage(chat) = &actions[0] {
        assert!(chat.pid != 0, "Local UI PID should be generated deterministically");
        assert_eq!(chat.sequence_id, 999, "Sequence ID from packet should be 999");
        assert_eq!(chat.nickname, "Bob", "Nickname should be Bob");
        assert_eq!(chat.uid, 100, "UID should be 100");
        assert_eq!(chat.message, "Hi", "Message should be Hi");
    } else {
        panic!("Pipeline failed to emit a new message.");
    }
}

#[test]
fn pipeline_ignores_the_same_packet_twice() {
    let mut pipeline = ChatPipeline::new();
    let blocked_users = HashMap::new();
    let packet = chat_packet();
    let first = pipeline.feed_network_packet(&packet, &blocked_users, || {});
    assert_eq!(first.len(), 1);
    let again = pipeline.feed_network_packet(&packet, &blocked_users, || {});
    assert!(again.is_empty());

    let mut blocked = HashMap::new();
    blocked.insert(100u64, "Bob".to_string());
    let third = pipeline.feed_network_packet(&packet, &blocked, || {});
    assert_eq!(third.len(), 1);
    assert!(matches!(&third[0], PipelineAction::UpdateBlockedMessage(c) if c.is_blocked));
}

fn message(pid: u64, uid: u64, text: &str, timestamp: u64) -> ChatMessage {
    ChatMessage {
        pid,
        uid,
        timestamp,
        message: text.to_string(),
        nickname: "Bob".to_string(),
        channel: "WORLD".to_string(),
        ..Default::default()
    }
}

#[test]
fn store_and_emit_drops_relayed_duplicates_within_two_seconds() {
    let mut state = AppState::new();
    let first = store_and_emit(&mut state, message(1, 7, "hello", 100), 10_000, 10);
    assert!(first.is_some());
    // The same message relayed by a second client, 1.5 s later.
    assert!(store_and_emit(&mut state, message(2, 7, "hello", 100), 11_500, 10).is_none());
    // Exactly at the edge of the window it is still a duplicate.
    assert!(store_and_emit(&mut state, message(3, 7, "hello", 100), 12_000, 10).is_none());
    // After the window it is new again.
    assert!(store_and_emit(&mut state, message(4, 7, "hello", 100), 14_001, 10).is_some());
    assert_eq!(state.chat_history.len(), 2);
}

#[test]
fn store_and_emit_keeps_history_under_the_limit() {
    let mut state = AppState::new();
    for i in 0..5u64 {
        let out = store_and_emit(&mut state, message(i + 1, 7, &format!("m{}", i), i), 1000 * i, 3);
        assert!(out.is_some());
    }
    // At most `limit` messages, the newest ones.
    let kept: Vec<u64> = state.chat_history.messages().iter().map(|m| m.pid).collect();
    assert_eq!(kept, vec![3, 4, 5]);
    // A zero limit keeps only the newest message.
    store_and_emit(&mut state, message(9, 7, "last", 99), 99_000, 0);
    let kept: Vec<u64> = state.chat_history.messages().iter().map(|m| m.pid).collect();
    assert_eq!(kept, vec![9]);
}

#[test]
fn store_and_emit_fills_in_known_romaji() {
    let mut state = AppState::new();
    state.nickname_cache.insert("Bob".to_string(), "Bobu".to_string());
    let out = store_and_emit(&mut state, message(1, 7, "hi", 5), 0, 10).unwrap();
    assert_eq!(out.nickname_romaji, Some("Bobu".to_string()));
    assert_eq!(state.chat_history.get(1).unwrap().nickname_romaji, Some("Bobu".to_string()));
}

#[test]
fn dispatch_marks_blocked_messages_once() {
    let mut state = AppState::new();
    store_and_emit(&mut state, message(1, 7, "spam", 5), 0, 10);
    let mut blocked = message(1, 7, "spam", 5);
    blocked.is_blocked = true;
    let effects = dispatch_pipeline_action(
        &mut state,
        PipelineAction::UpdateBlockedMessage(blocked),
        false,
        false,
        10,
        0,
    );
    assert_eq!(effects.len(), 1);
    assert!(matches!(&effects[0], DispatchEffect::EmitMessageUpdate(m) if m.is_blocked && m.pid == 1));
    assert!(state.chat_history.get(1).unwrap().is_blocked);
    let again = dispatch_pipeline_action(
        &mut state,
        PipelineAction::UpdateBlockedMessage(message(1, 7, "spam", 5)),
        false,
        false,
        10,
        0,
    );
    assert!(again.is_empty());
}

#[test]
fn dispatch_queues_japanese_messages_for_translation() {
    let mut state = AppState::new();
    let effects = dispatch_pipeline_action(
        &mut state,
        PipelineAction::EmitNewMessage(message(1, 7, "こんにちは", 5)),
        true,
        true,
        10,
        0,
    );
    assert_eq!(effects.len(), 2);
    assert!(matches!(&effects[0], DispatchEffect::EmitPacket(m) if m.pid == 1));
    assert!(matches!(&effects[1], DispatchEffect::SendTranslationJob(m) if m.pid == 1));

    // Not Japanese: archived instead, when archiving is on.
    let effects = dispatch_pipeline_action(
        &mut state,
        PipelineAction::EmitNewMessage(message(2, 8, "hello", 6)),
        true,
        true,
        10,
        0,
    );
    assert_eq!(effects.len(), 2);
    assert!(matches!(&effects[1], DispatchEffect::SendArchiveJob(j) if j.pid == 2 && j.original == "hello" && j.translated.is_none()));

    // A duplicate is not emitted again but still queued.
    let effects = dispatch_pipeline_action(
        &mut state,
        PipelineAction::EmitNewMessage(message(3, 8, "hello", 6)),
        false,
        false,
        10,
        500,
    );
    assert!(effects.is_empty());
}

#[test]
fn block_and_unblock_rewrite_the_history() {
    let mut state = AppState::new();
    store_and_emit(&mut state, message(1, 7, "a", 1), 0, 10);
    store_and_emit(&mut state, message(2, 8, "b", 2), 0, 10);
    store_and_emit(&mut state, message(3, 7, "c", 3), 0, 10);
    let changed = state.chat_history.set_blocked_for_uid(7, true);
    let pids: Vec<u64> = changed.iter().map(|m| m.pid).collect();
    assert_eq!(pids, vec![1, 3]);
    assert!(changed.iter().all(|m| m.is_blocked));
    assert!(state.chat_history.set_blocked_for_uid(7, true).is_empty());
    let changed = state.chat_history.set_blocked_for_uid(7, false);
    assert_eq!(changed.len(), 2);
    assert!(!state.chat_history.get(1).unwrap().is_blocked);
}

#[test]
fn signed_message_gets_its_cut_id_and_block_mark() {
    let mut processor = MessageProcessor::new();
    let mut blocked = HashMap::new();
    blocked.insert(7u64, "spammer".to_string());

    let mut chat = ChatMessage { uid: 7, ..Default::default() };
    let action = processor.process_signed(&mut chat, u64::MAX, &blocked);
    assert!(matches!(action, ProcessAction::EmitNewMessage));
    assert_eq!(chat.pid, (1u64 << 53) - 1);
    assert!(chat.is_blocked);

    processor.commit_new_message(&chat);
    let mut again = ChatMessage { uid: 7, ..Default::default() };
    assert!(matches!(processor.process_signed(&mut again, u64::MAX, &blocked), ProcessAction::UpdateBlockedMessage));
    let mut other = ChatMessage { uid: 8, ..Default::default() };
    assert!(matches!(processor.process_signed(&mut other, u64::MAX, &blocked), ProcessAction::IgnoreDuplicate));
    assert!(!other.is_blocked);
}

#[test]
fn a_chat_segment_is_emitted_once() {
    let mut pipeline = ChatPipeline::new();
    let blocked_users = HashMap::new();
    let payload = vec![
        0x00, 0x00, 0x00, 0x00, // application header
        0x0A, 0x14, // root, 20 bytes
        0x12, 0x12, 0x08, 0xE7, 0x07, 0x12, 0x07, 0x08, 0x64, 0x12, 0x03, 0x42, 0x6F, 0x62, 0x22, 0x04,
        0x1A, 0x02, 0x48, 0x69,
    ];
    let source = [192, 168, 1, 1];
    // A segment whose 0x0A does not frame the rest of it carries no game data.
    assert!(pipeline.feed_chat_segment(source, &payload[..12], 1_000, &blocked_users).is_empty());
    let actions = pipeline.feed_chat_segment(source, &payload, 1_100, &blocked_users);
    assert_eq!(actions.len(), 1);
    match &actions[0] {
        PipelineAction::EmitNewMessage(chat) => {
            assert_eq!(chat.sequence_id, 999);
            assert_eq!(chat.uid, 100);
            assert_eq!(chat.nickname, "Bob");
            assert_eq!(chat.message, "Hi");
        }
        _ => panic!("expected a new message"),
    }
    assert!(pipeline.feed_chat_segment(source, &payload, 1_200, &blocked_users).is_empty());
}

#[test]
fn only_port_5003_segments_with_data_feed_the_watchdog() {
    let packet = chat_packet();
    assert!(feeds_watchdog_of(&packet));
    let mut fed = 0;
    let mut pipeline = ChatPipeline::new();
    pipeline.feed_network_packet(&packet, &HashMap::new(), || fed += 1);
    assert_eq!(fed, 1);

    let other_port = {
        let builder = PacketBuilder::ipv4([192, 168, 1, 1], [192, 168, 1, 2], 64).tcp(80, 12345, 1, 0);
        let mut p = Vec::<u8>::new();
        builder.write(&mut p, &[1, 2, 3]).unwrap();
        p
    };
    let empty = {
        let builder = PacketBuilder::ipv4([192, 168, 1, 1], [192, 168, 1, 2], 64).tcp(5003, 12345, 1, 0);
        let mut p = Vec::<u8>::new();
        builder.write(&mut p, &[]).unwrap();
        p
    };
    for p in [other_port, empty, vec![0u8; 3]] {
        assert!(!feeds_watchdog_of(&p));
        let mut fed = 0;
        assert!(pipeline.feed_network_packet(&p, &HashMap::new(), || fed += 1).is_empty());
        assert_eq!(fed, 0);
    }
}
