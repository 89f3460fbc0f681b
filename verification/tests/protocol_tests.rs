use resonance_stream::protocol::decoder::{find_int_by_tag, find_string_by_tag, read_varint, skip_field};
use resonance_stream::protocol::packet_buffer::PacketBuffer;
use resonance_stream::protocol::parser::{
    parse_chat_payload, parse_chunk_block, parse_message_block, parse_rich_content, parse_sender_info,
    parsing_pipeline, stage1_split, strip_application_header, ChatPayload, Port5003Event,
};
use resonance_stream::protocol::types::UnknownFields;

#[test]
fn test_read_varint() {
    let data1 = [0x05];
    let (val1, len1) = read_varint(&data1);
    assert_eq!(val1, 5);
    assert_eq!(len1, 1);

    let data2 = [0x96, 0x01];
    let (val2, len2) = read_varint(&data2);
    assert_eq!(val2, 150);
    assert_eq!(len2, 2);

    let data3 = [0x96];
    let (val3, len3) = read_varint(&data3);
    assert_eq!(val3, 0);
    assert_eq!(len3, 0);
}

#[test]
fn test_standard_read_varint() {
    let data = [0xAC, 0x02, 0xFF];
    let (val, read_bytes) = read_varint(&data);
    assert_eq!(val, 300);
    assert_eq!(read_bytes, 2);
}

#[test]
fn test_skip_field() {
    let data_varint = [0xAC, 0x02, 0xFF];
    assert_eq!(skip_field(0, &data_varint), 2);

    let data_64bit = [0; 10];
    assert_eq!(skip_field(1, &data_64bit), 8);

    let data_length = [0x03, 0xAA, 0xBB, 0xCC, 0xFF];
    assert_eq!(skip_field(2, &data_length), 4);
}

#[test]
fn test_strip_application_header_5003() {
    let packet = [0x00, 0x00, 0x11, 0x22, 0x0A, 0x02, 0xBB, 0xCC];
    let stripped = strip_application_header(&packet, 5003).unwrap();
    assert_eq!(stripped, &[0x0A, 0x02, 0xBB, 0xCC]);

    let bad_packet = [0x00, 0x11, 0x22, 0x0A, 0x09, 0xBB];
    assert!(strip_application_header(&bad_packet, 5003).is_none());
}

#[test]
fn test_parser_edge_cases() {
    let tiny_payload = [0x0A, 0x01];
    assert!(strip_application_header(&tiny_payload, 5003).is_none());
    assert!(strip_application_header(&tiny_payload, 10250).is_none());

    let truncated_data = [0xAC];
    let (val, read_bytes) = read_varint(&truncated_data);
    assert_eq!(read_bytes, 0);
    assert_eq!(val, 0);

    let out_of_bounds_data = [0x32, 0xFF, 0xFF];
    let skipped = skip_field(2, &out_of_bounds_data);
    assert_eq!(skipped, 51);

    let safe_end = (0 + skipped).min(out_of_bounds_data.len());
    assert_eq!(safe_end, 3);
}

#[test]
fn test_parse_chunk_block() {
    let mut unknown_fields = UnknownFields::new();

    let item_chunk = [0x08, 0x03];
    assert_eq!(parse_chunk_block(&item_chunk, &mut unknown_fields), "[아이템 링크]");

    let fish_chunk = [0x08, 0x09];
    assert_eq!(parse_chunk_block(&fish_chunk, &mut unknown_fields), "[물고기 자랑]");

    let text_chunk = [
        0x08, 0x07, 0x12, 0x07, 0x0A, 0x05, b'H', b'e', b'l', b'l', b'o',
    ];
    assert_eq!(parse_chunk_block(&text_chunk, &mut unknown_fields), "Hello");
}

#[test]
fn test_parse_rich_content_array() {
    let mut unknown_fields = UnknownFields::new();
    let rich_data = [
        0x12, 0x14, 0x08, 0x07, 0x12, 0x10, 0x0A, 0x0E, b'L', b'o', b'o', b'k', b' ', b'a', b't',
        b' ', b't', b'h', b'i', b's', b':', b' ', 0x12, 0x02, 0x08, 0x03,
    ];
    let result = parse_rich_content(&rich_data, &mut unknown_fields);
    assert_eq!(result, "Look at this: [아이템 링크]");
}

#[test]
fn test_parse_message_block() {
    let mut payload = ChatPayload::default();
    let message_data = [
        26, 6, b'H', b'e', b'l', b'l', b'o', b' ', 58, 4, 18, 2, 8, 3, 26, 1, b'!',
    ];
    parse_message_block(&message_data, &mut payload);
    assert_eq!(payload.message, "Hello [아이템 링크]!");
    assert!(payload.unknown_fields.is_empty());
}

#[test]
fn test_parse_chat_payload_flattened() {
    let chat_payload_data = vec![
        8, 0xE7, 0x07, 18, 7, 8, 100, 18, 3, b'B', b'o', b'b', 24, 0x80, 0x01, 34, 7, 26, 5, b'G',
        b'r', b'e', b'a', b't',
    ];
    let parsed = parse_chat_payload(&chat_payload_data);
    assert_eq!(parsed.session_id, 999);
    assert_eq!(parsed.timestamp, 128);
    assert_eq!(parsed.message, "Great");
    assert_eq!(parsed.sender.uid, 100);
    assert_eq!(parsed.sender.nickname, "Bob");
}

#[test]
fn test_packet_buffer_reassembly() {
    let mut pb = PacketBuffer::new();
    pb.add(&[0x0A, 0x03, 0x01]);
    assert_eq!(pb.next(), None);
    pb.add(&[0x02, 0x03]);
    let assembled = pb.next().unwrap();
    assert_eq!(assembled, vec![0x0A, 0x03, 0x01, 0x02, 0x03]);
    assert_eq!(pb.next(), None);
}

#[test]
fn test_buffer_edge_cases() {
    let mut pb = PacketBuffer::new();
    let mut data = vec![0x0A, 0xFF, 0x08];
    data.extend(vec![0; 1100]);
    data.extend(&[0x0A, 0x03, 0x01, 0x02, 0x03]);
    pb.add(&data);

    let mut found_packet = None;
    while let Some(p) = pb.next() {
        found_packet = Some(p);
    }
    assert_eq!(found_packet.unwrap(), vec![0x0A, 0x03, 0x01, 0x02, 0x03]);

    pb.buffer.clear();
    pb.add(&[0x0A, 0xFF, 0xFF, 0x7F, 0x00, 0x00]);
    assert_eq!(pb.next(), None);
}

#[test]
fn find_by_tag_skips_other_fields() {
    // Tag 0x08 (varint 5), tag 0x12 (length 2 "hi"), tag 0x1A (length 3 "abc").
    let data = [0x08, 0x05, 0x12, 0x02, b'h', b'i', 0x1A, 0x03, b'a', b'b', b'c'];
    assert_eq!(find_string_by_tag(&data, 0x1A), Some("abc".to_string()));
    assert_eq!(find_string_by_tag(&data, 0x12), Some("hi".to_string()));
    assert_eq!(find_string_by_tag(&data, 0x22), None);
    assert_eq!(find_int_by_tag(&data, 0x08), Some(5));
    assert_eq!(find_int_by_tag(&data, 0x10), None);
}

#[test]
fn pipeline_parses_full_chat_packet() {
    let packet = vec![
        0x0A, 0x14, 0x12, 0x12, 0x08, 0xE7, 0x07, 0x12, 0x07, 0x08, 0x64, 0x12, 0x03, 0x42, 0x6F,
        0x62, 0x22, 0x04, 0x1A, 0x02, 0x48, 0x69,
    ];
    let split = stage1_split(&packet).unwrap();
    assert_eq!(split.channel, "WORLD");
    assert_eq!(split.chat_blocks.len(), 1);
    let events = parsing_pipeline(&packet);
    assert_eq!(events.len(), 1);
    let Port5003Event::Chat(chat) = &events[0];
    assert_eq!(chat.sequence_id, 999);
    assert_eq!(chat.uid, 100);
    assert_eq!(chat.nickname, "Bob");
    assert_eq!(chat.message, "Hi");
}

#[test]
fn pipeline_names_senderless_message_me_and_reads_channel() {
    // Field 1 varint 3 (PARTY), field 4 block with tag 0x1A "ok".
    let packet = vec![0x0A, 0x08, 0x08, 0x03, 0x22, 0x04, 0x1A, 0x02, b'o', b'k'];
    let events = parsing_pipeline(&packet);
    assert_eq!(events.len(), 1);
    let Port5003Event::Chat(chat) = &events[0];
    assert_eq!(chat.channel, "PARTY");
    assert_eq!(chat.message, "ok");
    assert_eq!(chat.nickname, "Me");
    assert!(parsing_pipeline(&[0x0A, 0x02, 0x08, 0x03]).is_empty());
}

#[test]
fn strip_header_other_ports() {
    let mut long = vec![0u8; 32];
    long.extend(&[0x0A, 0x01, 0x02]);
    assert_eq!(strip_application_header(&long, 10250), Some(&long[32..]));
    let direct = [0x0A, 0x03, 1, 2, 3];
    assert_eq!(strip_application_header(&direct, 80), Some(&direct[..]));
    assert_eq!(strip_application_header(&[1, 0x0A, 1, 2, 3], 80), None);
}

#[test]
fn whole_packet_comes_out_and_the_rest_waits() {
    let mut pb = PacketBuffer::new();
    pb.add(&[0x0A, 0x03, 0x01, 0x02, 0x03, 0x0A, 0x04, 0x09]);
    assert_eq!(pb.next(), Some(vec![0x0A, 0x03, 0x01, 0x02, 0x03]));
    assert_eq!(pb.buffer, vec![0x0A, 0x04, 0x09]);
    assert_eq!(pb.next(), None);
    assert_eq!(pb.buffer, vec![0x0A, 0x04, 0x09]);
}

#[test]
fn sender_class_is_field_three() {
    let sender = parse_sender_info(&[24, 2]);
    assert_eq!(sender.class_id, 2);
    assert!(sender.unknown_fields.is_empty());
    let sender = parse_sender_info(&[8, 100, 24, 5, 40, 60]);
    assert_eq!((sender.uid, sender.class_id, sender.level), (100, 5, 60));
}
