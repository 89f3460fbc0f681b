use etherparse::PacketBuilder;
use resonance_stream::protocol::types::ChatMessage;
use resonance_stream::sniffer::{
    extract_stream_key, extract_tcp_payload, parse_and_emit_5003, parse_profile_block,
    parse_user_container, read_varint, skip_field, split_port_5003_fields, stage1_split,
    stage2_process, DiscoveredFields, EmissionCache, Port5003Event,
};

#[test]
fn lenient_varint_keeps_partial_values() {
    assert_eq!(read_varint(&[0x96, 0x01]), (150, 2));
    assert_eq!(read_varint(&[0x96]), (0x16, 1));
    assert_eq!(read_varint(&[]), (0, 0));
    let (_, n) = read_varint(&[0xFF; 12]);
    assert_eq!(n, 10);
    assert_eq!(skip_field(2, &[0x03, 1, 2, 3]), 4);
    assert_eq!(skip_field(1, &[]), 8);
    assert_eq!(skip_field(7, &[]), 1);
}

fn user_container() -> Vec<u8> {
    let profile = vec![0x08, 0x64, 0x12, 0x03, b'B', b'o', b'b', 0x18, 0x02, 0x20, 0x01, 0x28, 0x0A];
    let mut data = vec![0x08, 0x05, 0x12, profile.len() as u8];
    data.extend(&profile);
    data.extend(&[0x18, 0x07, 0x22, 0x04, 0x1A, 0x02, b'H', b'i']);
    data
}

#[test]
fn user_container_fields() {
    let mut chat = ChatMessage::default();
    parse_user_container(&user_container(), &mut chat);
    assert_eq!(chat.pid, 5);
    assert_eq!(chat.uid, 100);
    assert_eq!(chat.nickname, "Bob");
    assert_eq!(chat.class_id, 2);
    assert_eq!(chat.level, 10);
    assert_eq!(chat.timestamp, 7);
    assert_eq!(chat.message, "Hi");

    let mut other = ChatMessage::default();
    parse_profile_block(&[0x30, 0x05, 0x08, 0x09], &mut other);
    assert_eq!(other.uid, 9);
}

#[test]
fn port_5003_fields_by_number() {
    let data = vec![0x0A, 0x07, 0x08, 0x03, 0x12, 0x02, b'o', b'k', 0x20];
    let fields = split_port_5003_fields(&data);
    assert_eq!(fields.get(&1), Some(&vec![0x03]));
    assert_eq!(fields.get(&2), Some(&vec![0x02, b'o', b'k']));
    assert_eq!(fields.len(), 3);
    assert!(split_port_5003_fields(&[0x0B, 0x00]).is_empty());
}

#[test]
fn headers_of_raw_packets() {
    let builder = PacketBuilder::ipv4([10, 0, 0, 1], [10, 0, 0, 2], 64).tcp(5003, 4000, 1, 0);
    let mut packet = Vec::new();
    builder.write(&mut packet, &[1, 2, 3]).unwrap();
    assert_eq!(extract_stream_key(&packet), Some([10, 0, 0, 1, 0x13, 0x8B]));
    assert_eq!(extract_tcp_payload(&packet), Some(&[1u8, 2, 3][..]));
    assert_eq!(extract_stream_key(&packet[..10]), None);
    let mut udp = packet.clone();
    udp[9] = 17;
    assert_eq!(extract_tcp_payload(&udp), None);
}

fn packet_with(blocks: &[(u8, Vec<u8>)], channel: u8) -> Vec<u8> {
    let mut body = vec![0x08, channel];
    for (tag, b) in blocks {
        body.push(*tag);
        body.push(b.len() as u8);
        body.extend(b);
    }
    let mut data = vec![0x0A, body.len() as u8];
    data.extend(body);
    data
}

#[test]
fn legacy_stages_read_chat_recruitment_and_assets() {
    let recruit = b"Party ID:ABC12 join".to_vec();
    let asset = b"https://cdn/x/snapshot.png".to_vec();
    let data = packet_with(&[(0x12, user_container()), (0x92, recruit.clone()), (0x92, asset.clone())], 3);
    // The tag is read as one byte: 0x92 is field 18 with wire type 2.
    let split = stage1_split(&data).unwrap();
    assert_eq!(split.channel, "PARTY");
    assert_eq!(split.chat_blocks.len(), 1);
    assert_eq!(split.recruit_asset_blocks.len(), 2);
    let events = stage2_process(split);
    assert_eq!(events.len(), 3);
    match &events[0] {
        Port5003Event::Chat(c) => {
            assert_eq!(c.message, "Hi");
            assert_eq!(c.channel, "PARTY");
        }
        _ => panic!("chat first"),
    }
    match &events[1] {
        Port5003Event::Recruit(l) => {
            assert_eq!(l.recruit_id, "ABC12 join");
            assert_eq!(l.leader_nickname, "Bob");
            assert_eq!(l.timestamp, 7);
        }
        _ => panic!("recruitment second"),
    }
    match &events[2] {
        Port5003Event::Asset(a) => {
            assert_eq!(a.uid, 100);
            assert_eq!(a.snapshot_url, "https://cdn/x/snapshot.png");
            assert!(a.halflength_url.is_empty());
        }
        _ => panic!("asset third"),
    }
    // Without a channel id it is not a chat packet.
    let no_channel = vec![0x0A, 0x02, 0x10, 0x01];
    assert!(stage1_split(&no_channel).is_none());
}

#[test]
fn emission_cache_suppresses_unchanged_entities() {
    let recruit = b"ID:1".to_vec();
    let data = packet_with(&[(0x92, recruit)], 1);
    let mut cache = EmissionCache::new();
    assert_eq!(parse_and_emit_5003(&data, &mut cache, 0).len(), 1);
    assert_eq!(parse_and_emit_5003(&data, &mut cache, 1000).len(), 0);
    let changed = packet_with(&[(0x92, b"ID:1 now".to_vec())], 1);
    // The id is "1 now": another entity.
    assert_eq!(parse_and_emit_5003(&changed, &mut cache, 2000).len(), 1);
    // Last seen at 1000: exactly the time to live later it is kept, then dropped.
    assert!(cache.sweep(301_000).is_empty());
    assert_eq!(cache.sweep(301_001), vec!["recruit_1".to_string()]);
    assert!(cache.sweep(301_001).is_empty());
}

#[test]
fn discovered_fields_report_once() {
    let mut d = DiscoveredFields::new_5003();
    assert!(!d.record(1));
    assert!(d.record(9));
    assert!(!d.record(9));
}

#[test]
fn sightings_are_news_until_seen_with_the_same_content() {
    let mut cache = EmissionCache::new();
    assert!(cache.record_sighting("recruit_1".to_string(), 10, 0));
    assert!(!cache.record_sighting("recruit_1".to_string(), 10, 5));
    assert!(cache.record_sighting("recruit_1".to_string(), 11, 6));
    assert!(cache.record_sighting("asset_2".to_string(), 11, 7));
}
