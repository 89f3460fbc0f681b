//! The first capture engine's decoding: a lenient varint reader, strict
//! tag-mapped parsers of the sender container, the split of port 5003
//! packets into fields, and the IPv4/TCP header reading.

use crate::protocol::decoder::{clamp_add, min_int, varint_groups};
use std::collections::{HashMap, HashSet};
use std::hash::{Hash, Hasher};
use crate::protocol::parser::{channel_label, channel_name};
use crate::protocol::types::{ChatMessage, ChatMessageView};
use crate::text::{
    chars_of, contains_text, decimal, decimal_text, decode_utf8_lossy, find_from, has_substring,
    same_text, utf8_lossy,
};
use crate::ui::events::{first_from, lemma_first_from, lemma_first_from_range};
use vstd::prelude::*;

verus! {

/// Searching from byte `k`: one past the first byte without the continuation
/// bit; where the data or the tenth byte comes first, the bytes read so far.
pub open spec fn lenient_len_from(data: Seq<u8>, k: int) -> int
    decreases 10 - k,
{
    if k < 0 {
        0
    } else if k >= data.len() || k >= 10 {
        k
    } else if data[k] < 0x80 {
        k + 1
    } else {
        lenient_len_from(data, k + 1)
    }
}

/// The bytes the lenient reader consumes: through the first byte without the
/// continuation bit, but no further than the data or ten bytes.
pub open spec fn lenient_len(data: Seq<u8>) -> int {
    lenient_len_from(data, 0)
}

/// The value the lenient reader gives: the groups of the bytes it consumed,
/// complete or not.
pub open spec fn lenient_value(data: Seq<u8>) -> u64 {
    varint_groups(data.take(lenient_len(data)))
}

pub proof fn lemma_lenient_len_from(data: Seq<u8>, k: int)
    requires
        0 <= k <= 10,
        k <= data.len(),
    ensures
        k <= lenient_len_from(data, k) <= data.len(),
        lenient_len_from(data, k) <= 10,
    decreases 10 - k,
{
    if k < data.len() && k < 10 && data[k] >= 0x80 {
        lemma_lenient_len_from(data, k + 1);
    }
}

pub proof fn lemma_lenient_len(data: Seq<u8>)
    ensures
        0 <= lenient_len(data) <= data.len(),
        lenient_len(data) <= 10,
{
    lemma_lenient_len_from(data, 0);
}

/// Reads a varint leniently: (value, bytes read), where an incomplete varint
/// gives the value of the bytes read and at most ten bytes are read.
pub fn read_varint(data: &[u8]) -> (r: (u64, usize))
    ensures
        r.1 as int == lenient_len(data@),
        r.0 == lenient_value(data@),
        r.1 <= 10,
        r.1 <= data@.len(),
{
    let mut value: u64 = 0;
    let mut shift: u64 = 0;
    let mut pos: usize = 0;
    while pos < data.len() && pos < 10
        invariant
            pos <= data@.len(),
            pos <= 10,
            shift == 7 * pos,
            value == varint_groups(data@.take(pos as int)),
            lenient_len(data@) == lenient_len_from(data@, pos as int),
        decreases data@.len() - pos,
    {
        let byte = data[pos];
        let ghost old_pos = pos as int;
        assert(data@.take(old_pos + 1).drop_last() == data@.take(old_pos));
        value = value | (((byte & 0x7f) as u64) << shift);
        pos = pos + 1;
        if byte & 0x80 == 0 {
            assert(byte < 0x80) by (bit_vector)
                requires
                    byte & 0x80 == 0,
            ;
            return (value, pos);
        }
        assert(byte >= 0x80) by (bit_vector)
            requires
                byte & 0x80 != 0,
        ;
        shift = shift + 7;
    }
    (value, pos)
}

/// How many bytes a field of the given wire type occupies after its tag, by
/// the lenient reader (unbounded).
pub open spec fn lenient_skip_len(wire_type: u8, data: Seq<u8>) -> int {
    if wire_type == 0 {
        lenient_len(data)
    } else if wire_type == 1 {
        8
    } else if wire_type == 2 {
        lenient_len(data) + lenient_value(data)
    } else if wire_type == 5 {
        4
    } else {
        1
    }
}

/// The widths the lenient reader skips, by wire type: a fixed64 (1) takes
/// 8 bytes and a fixed32 (5) 4, whatever follows; a varint (0) its own
/// bytes; a length-delimited field (2) its length varint and the bytes it
/// counts; any other wire type one byte.
pub proof fn law_lenient_field_widths(data: Seq<u8>)
    ensures
        lenient_skip_len(1, data) == 8,
        lenient_skip_len(5, data) == 4,
        lenient_skip_len(0, data) == lenient_len(data),
        lenient_skip_len(2, data) == lenient_len(data) + lenient_value(data),
        lenient_skip_len(3, data) == 1 && lenient_skip_len(4, data) == 1 && lenient_skip_len(6, data) == 1
            && lenient_skip_len(7, data) == 1,
{
}

pub proof fn lemma_lenient_skip_nonneg(wire_type: u8, data: Seq<u8>)
    ensures
        lenient_skip_len(wire_type, data) >= 0,
{
    lemma_lenient_len(data);
}

/// How many bytes to skip after a tag, by wire type, reading lengths
/// leniently; a length past `usize::MAX` gives `usize::MAX`.
pub fn skip_field(wire_type: u8, data: &[u8]) -> (r: usize)
    ensures
        r as int == min_int(lenient_skip_len(wire_type, data@), usize::MAX as int),
{
    match wire_type {
        0 => read_varint(data).1,
        1 => 8,
        2 => {
            let (len, read) = read_varint(data);
            if len > (usize::MAX - read) as u64 {
                usize::MAX
            } else {
                read + len as usize
            }
        },
        5 => 4,
        _ => 1,
    }
}

/// Where the varint that starts at `p` ends.
pub open spec fn lv_end(data: Seq<u8>, p: int) -> int {
    p + lenient_len(data.skip(p))
}

/// Where the payload of the length-delimited field whose length starts at
/// `p` ends, capped at the end of the data.
pub open spec fn lb_end(data: Seq<u8>, p: int) -> int {
    min_int(lv_end(data, p) + lenient_value(data.skip(p)), data.len() as int)
}

/// Where a field of the given wire type whose body starts at `p` ends, capped
/// at the end of the data.
pub open spec fn ls_end(data: Seq<u8>, p: int, wire_type: u8) -> int {
    min_int(p + lenient_skip_len(wire_type, data.skip(p)), data.len() as int)
}

pub proof fn lemma_lenient_bounds(data: Seq<u8>, p: int, wire_type: u8)
    requires
        0 <= p <= data.len(),
    ensures
        p <= lv_end(data, p) <= lb_end(data, p) <= data.len(),
        p <= ls_end(data, p, wire_type) <= data.len(),
{
    lemma_lenient_len(data.skip(p));
    lemma_lenient_skip_nonneg(wire_type, data.skip(p));
}

/// Reads the varint at `p`: its value and the position after it.
fn varint_at(data: &[u8], p: usize) -> (r: (u64, usize))
    requires
        p <= data@.len(),
    ensures
        r.0 == lenient_value(data@.skip(p as int)),
        r.1 as int == lv_end(data@, p as int),
        p <= r.1 <= data@.len(),
{
    let rest = &data[p..data.len()];
    assert(rest@ == data@.skip(p as int));
    let (v, n) = read_varint(rest);
    (v, p + n)
}

/// The bounds of the payload of the length-delimited field at `p`.
fn block_at(data: &[u8], p: usize) -> (r: (usize, usize))
    requires
        p <= data@.len(),
    ensures
        r.0 as int == lv_end(data@, p as int),
        r.1 as int == lb_end(data@, p as int),
        p <= r.0 <= r.1 <= data@.len(),
{
    let rest = &data[p..data.len()];
    assert(rest@ == data@.skip(p as int));
    let (len, n) = read_varint(rest);
    let start = p + n;
    let end = clamp_add(start, len, data.len());
    (start, end)
}

/// The end of the field of the given wire type whose body starts at `p`.
fn skip_at(data: &[u8], p: usize, wire_type: u8) -> (r: usize)
    requires
        p <= data@.len(),
    ensures
        r as int == ls_end(data@, p as int, wire_type),
        p <= r <= data@.len(),
{
    let rest = &data[p..data.len()];
    assert(rest@ == data@.skip(p as int));
    let skipped = skip_field(wire_type, rest);
    proof {
        lemma_lenient_skip_nonneg(wire_type, rest@);
    }
    clamp_add(p, skipped as u64, data.len())
}

/// Scanning from `i`: the text of the first field tagged `target` whose
/// payload is not empty, decoded lossily; other fields are skipped.
pub open spec fn find_string_from(data: Seq<u8>, target: u8, i: int) -> Option<Seq<char>>
    decreases data.len() - i,
{
    if i < 0 || i >= data.len() {
        None
    } else {
        let start = lv_end(data, i + 1);
        let end = lb_end(data, i + 1);
        if data[i] == target && start < end {
            Some(utf8_lossy(data.subrange(start, end)))
        } else {
            proof {
                lemma_lenient_bounds(data, i + 1, data[i] & 0x07);
            }
            find_string_from(data, target, ls_end(data, i + 1, data[i] & 0x07))
        }
    }
}

/// Scanning from `i`: the varint after the first tag equal to `target`.
pub open spec fn find_int_from(data: Seq<u8>, target: u8, i: int) -> Option<u64>
    decreases data.len() - i,
{
    if i < 0 || i >= data.len() {
        None
    } else if data[i] == target {
        Some(lenient_value(data.skip(i + 1)))
    } else {
        proof {
            lemma_lenient_bounds(data, i + 1, data[i] & 0x07);
        }
        find_int_from(data, target, ls_end(data, i + 1, data[i] & 0x07))
    }
}

/// The text of the first non-empty field tagged `target_tag`.
pub fn find_string_by_tag(data: &[u8], target_tag: u8) -> (r: Option<String>)
    ensures
        crate::protocol::types::opt_text(r) == find_string_from(data@, target_tag, 0),
        r matches Some(s) ==> s@.len() > 0,
{
    let mut i: usize = 0;
    while i < data.len()
        invariant
            i <= data@.len(),
            find_string_from(data@, target_tag, i as int) == find_string_from(data@, target_tag, 0),
        decreases data@.len() - i,
    {
        let tag = data[i];
        let (start, end) = block_at(data, i + 1);
        if tag == target_tag && start < end {
            return Some(decode_utf8_lossy(&data[start..end]));
        }
        i = skip_at(data, i + 1, tag & 0x07);
    }
    None
}

/// The varint after the first tag equal to `target_tag`.
pub fn find_int_by_tag(data: &[u8], target_tag: u8) -> (r: Option<u64>)
    ensures
        r == find_int_from(data@, target_tag, 0),
{
    let mut i: usize = 0;
    while i < data.len()
        invariant
            i <= data@.len(),
            find_int_from(data@, target_tag, i as int) == find_int_from(data@, target_tag, 0),
        decreases data@.len() - i,
    {
        let tag = data[i];
        if tag == target_tag {
            let (v, _) = varint_at(data, i + 1);
            return Some(v);
        }
        i = skip_at(data, i + 1, tag & 0x07);
    }
    None
}

/// One field of the profile block at `i`: tag 8 the UID, 18 the nickname, 24
/// the class, 32 a status flag (read and dropped), 40 the level; other fields
/// are skipped.
pub open spec fn profile_step(data: Seq<u8>, i: int, c: ChatMessageView) -> (ChatMessageView, int) {
    let tag = data[i];
    let p = i + 1;
    if tag == 8 {
        (ChatMessageView { uid: lenient_value(data.skip(p)), ..c }, lv_end(data, p))
    } else if tag == 18 {
        (ChatMessageView { nickname: utf8_lossy(data.subrange(lv_end(data, p), lb_end(data, p))), ..c }, lb_end(data, p))
    } else if tag == 24 {
        (ChatMessageView { class_id: lenient_value(data.skip(p)), ..c }, lv_end(data, p))
    } else if tag == 32 {
        (c, lv_end(data, p))
    } else if tag == 40 {
        (ChatMessageView { level: lenient_value(data.skip(p)), ..c }, lv_end(data, p))
    } else {
        (c, ls_end(data, p, tag & 0x07))
    }
}

/// The profile block parsed from `i` on.
pub open spec fn profile_scan(data: Seq<u8>, i: int, c: ChatMessageView) -> ChatMessageView
    decreases data.len() - i,
{
    if i < 0 || i >= data.len() {
        c
    } else {
        proof {
            lemma_lenient_bounds(data, i + 1, data[i] & 0x07);
        }
        profile_scan(data, profile_step(data, i, c).1, profile_step(data, i, c).0)
    }
}

/// Parses a profile block into `chat`: UID, nickname, class and level.
pub fn parse_profile_block(data: &[u8], chat: &mut ChatMessage)
    ensures
        final(chat)@ == profile_scan(data@, 0, old(chat)@),
{
    let mut i: usize = 0;
    while i < data.len()
        invariant
            i <= data@.len(),
            profile_scan(data@, i as int, chat@) == profile_scan(data@, 0, old(chat)@),
        decreases data@.len() - i,
    {
        let tag = data[i];
        let p = i + 1;
        proof {
            lemma_lenient_bounds(data@, p as int, tag & 0x07);
        }
        if tag == 8 {
            let (v, e) = varint_at(data, p);
            chat.uid = v;
            i = e;
        } else if tag == 18 {
            let (s, e) = block_at(data, p);
            chat.nickname = decode_utf8_lossy(&data[s..e]);
            i = e;
        } else if tag == 24 {
            let (v, e) = varint_at(data, p);
            chat.class_id = v;
            i = e;
        } else if tag == 32 {
            let (_, e) = varint_at(data, p);
            i = e;
        } else if tag == 40 {
            let (v, e) = varint_at(data, p);
            chat.level = v;
            i = e;
        } else {
            i = skip_at(data, p, tag & 0x07);
        }
    }
}

/// One field of the user container at `i`: tag 8 the session id (pid), 18
/// the profile block, 24 the timestamp, 34 the message block (its text under
/// tag 0x1A); other fields are skipped.
pub open spec fn user_step(data: Seq<u8>, i: int, c: ChatMessageView) -> (ChatMessageView, int) {
    let tag = data[i];
    let p = i + 1;
    if tag == 8 {
        (ChatMessageView { pid: lenient_value(data.skip(p)), ..c }, lv_end(data, p))
    } else if tag == 18 {
        (profile_scan(data.subrange(lv_end(data, p), lb_end(data, p)), 0, c), lb_end(data, p))
    } else if tag == 24 {
        (ChatMessageView { timestamp: lenient_value(data.skip(p)), ..c }, lv_end(data, p))
    } else if tag == 34 {
        let c2 = match find_string_from(data.subrange(lv_end(data, p), lb_end(data, p)), 0x1A, 0) {
            Some(m) => ChatMessageView { message: m, ..c },
            None => c,
        };
        (c2, lb_end(data, p))
    } else {
        (c, ls_end(data, p, tag & 0x07))
    }
}

/// The user container parsed from `i` on.
pub open spec fn user_scan(data: Seq<u8>, i: int, c: ChatMessageView) -> ChatMessageView
    decreases data.len() - i,
{
    if i < 0 || i >= data.len() {
        c
    } else {
        proof {
            lemma_lenient_bounds(data, i + 1, data[i] & 0x07);
        }
        user_scan(data, user_step(data, i, c).1, user_step(data, i, c).0)
    }
}

/// Parses a user container into `chat`: session id, profile, timestamp and
/// message text, each under its exact tag byte.
pub fn parse_user_container(data: &[u8], chat: &mut ChatMessage)
    ensures
        final(chat)@ == user_scan(data@, 0, old(chat)@),
{
    let mut i: usize = 0;
    while i < data.len()
        invariant
            i <= data@.len(),
            user_scan(data@, i as int, chat@) == user_scan(data@, 0, old(chat)@),
        decreases data@.len() - i,
    {
        let tag = data[i];
        let p = i + 1;
        proof {
            lemma_lenient_bounds(data@, p as int, tag & 0x07);
        }
        if tag == 8 {
            let (v, e) = varint_at(data, p);
            chat.pid = v;
            i = e;
        } else if tag == 18 {
            let (s, e) = block_at(data, p);
            parse_profile_block(&data[s..e], chat);
            i = e;
        } else if tag == 24 {
            let (v, e) = varint_at(data, p);
            chat.timestamp = v;
            i = e;
        } else if tag == 34 {
            let (s, e) = block_at(data, p);
            if let Some(msg) = find_string_by_tag(&data[s..e], 0x1A) {
                chat.message = msg;
            }
            i = e;
        } else {
            i = skip_at(data, p, tag & 0x07);
        }
    }
}

/// One field of a port-5003 packet at `i`, within `se`: its number and its
/// body (bounded by `se`), and where the next field starts.
pub open spec fn split_step(data: Seq<u8>, i: int, se: int, m: Map<u32, Seq<u8>>) -> (Map<u32, Seq<u8>>, int) {
    let tag = data[i];
    let start = i + 1;
    let end = min_int(start + lenient_skip_len(tag & 0x07, data.subrange(start, se)), se);
    (m.insert((tag >> 3) as u32, data.subrange(start, end)), end)
}

/// The fields from `i` to `se`; a field number seen again keeps its last body.
pub open spec fn split_scan(data: Seq<u8>, i: int, se: int, m: Map<u32, Seq<u8>>) -> Map<u32, Seq<u8>>
    decreases se - i,
{
    if i < 0 || i >= se || se > data.len() {
        m
    } else {
        proof {
            lemma_lenient_skip_nonneg(data[i] & 0x07, data.subrange(i + 1, se));
        }
        split_scan(data, split_step(data, i, se, m).1, se, split_step(data, i, se, m).0)
    }
}

/// The fields of a port-5003 packet ("0x0A, length, fields"), by field
/// number; nothing when it does not start so.
pub open spec fn port_5003_fields(data: Seq<u8>) -> Map<u32, Seq<u8>> {
    if data.len() < 2 || data[0] != 0x0A {
        Map::empty()
    } else {
        let rest = data.skip(1);
        let first = 1 + lenient_len(rest);
        let se = min_int(first + lenient_value(rest), data.len() as int);
        split_scan(data, first, se, Map::empty())
    }
}

/// The field bodies of a map of byte vectors.
pub open spec fn bodies_view(m: Map<u32, Vec<u8>>) -> Map<u32, Seq<u8>> {
    Map::new(|k: u32| m.dom().contains(k), |k: u32| m[k]@)
}

/// Splits a port-5003 packet into its fields, by field number.
pub fn split_port_5003_fields(data: &[u8]) -> (r: HashMap<u32, Vec<u8>>)
    ensures
        bodies_view(r@) == port_5003_fields(data@),
{
    let mut fields: HashMap<u32, Vec<u8>> = HashMap::new();
    assert(bodies_view(fields@) =~= Map::<u32, Seq<u8>>::empty());
    if data.len() < 2 || data[0] != 0x0A {
        return fields;
    }
    let (total_len, header_read) = varint_at(data, 1);
    proof {
        lemma_lenient_len(data@.skip(1));
    }
    let first = header_read;
    let safe_end = clamp_add(first, total_len, data.len());
    let mut i = first;
    while i < safe_end
        invariant
            first <= i <= safe_end,
            safe_end <= data@.len(),
            split_scan(data@, i as int, safe_end as int, bodies_view(fields@)) == port_5003_fields(data@),
        decreases safe_end - i,
    {
        let tag = data[i];
        let start = i + 1;
        let rest = &data[start..safe_end];
        let consumed = skip_field(tag & 0x07, rest);
        proof {
            lemma_lenient_skip_nonneg(tag & 0x07, rest@);
        }
        let end = clamp_add(start, consumed as u64, safe_end);
        let ghost before = bodies_view(fields@);
        let body = vstd::slice::slice_to_vec(&data[start..end]);
        fields.insert((tag >> 3) as u32, body);
        proof {
            assert(bodies_view(fields@) =~= before.insert((tag >> 3) as u32, data@.subrange(start as int, end as int)));
        }
        i = end;
    }
    fields
}

/// The address and port key of a packet's stream: the IPv4 source address
/// and the TCP source port; `None` unless it is IPv4 carrying TCP with room
/// for both headers.
pub open spec fn stream_key_of(data: Seq<u8>) -> Option<[u8; 6]> {
    if data.len() < 20 || (data[0] >> 4) != 4 || data[9] != 6 {
        None
    } else {
        let ihl = ((data[0] & 0x0F) as int) * 4;
        if data.len() < ihl + 20 {
            None
        } else {
            Some([data[12], data[13], data[14], data[15], data[ihl], data[ihl + 1]])
        }
    }
}

/// The stream key of a raw IPv4 packet: source address and source port.
pub fn extract_stream_key(data: &[u8]) -> (r: Option<[u8; 6]>)
    ensures
        r == stream_key_of(data@),
{
    if data.len() < 20 || (data[0] >> 4) != 4 || data[9] != 6 {
        return None;
    }
    let b0 = data[0];
    assert((b0 & 0x0F) <= 15) by (bit_vector);
    let ihl = ((b0 & 0x0F) as usize) * 4;
    if data.len() < ihl + 20 {
        return None;
    }
    let key: [u8; 6] = [data[12], data[13], data[14], data[15], data[ihl], data[ihl + 1]];
    assert(key@ =~= stream_key_of(data@)->0@);
    Some(key)
}

/// Where the TCP payload of a raw IPv4 packet starts: after the IP header
/// and the TCP header (their lengths read from the packet); `None` unless it
/// is IPv4 carrying TCP with room for both headers' fixed parts and the
/// payload start is within the packet.
pub open spec fn tcp_payload_start(data: Seq<u8>) -> Option<int> {
    if data.len() < 20 || (data[0] >> 4) != 4 || data[9] != 6 {
        None
    } else {
        let ihl = ((data[0] & 0x0F) as int) * 4;
        if data.len() < ihl + 20 {
            None
        } else {
            let off = ihl + ((data[ihl + 12] >> 4) as int) * 4;
            if off <= data.len() {
                Some(off)
            } else {
                None
            }
        }
    }
}

/// The TCP payload of a raw IPv4 packet.
pub fn extract_tcp_payload(data: &[u8]) -> (r: Option<&[u8]>)
    ensures
        match tcp_payload_start(data@) {
            Some(off) => r is Some && r->0@ == data@.skip(off),
            None => r is None,
        },
{
    if data.len() < 20 || (data[0] >> 4) != 4 || data[9] != 6 {
        return None;
    }
    let b0 = data[0];
    assert((b0 & 0x0F) <= 15) by (bit_vector);
    let ip_header_len = ((b0 & 0x0F) as usize) * 4;
    if data.len() < ip_header_len + 20 {
        return None;
    }
    let b = data[ip_header_len + 12];
    assert((b >> 4) <= 15) by (bit_vector);
    let tcp_header_len = ((b >> 4) as usize) * 4;
    let payload_offset = ip_header_len + tcp_header_len;
    if payload_offset <= data.len() {
        Some(&data[payload_offset..data.len()])
    } else {
        None
    }
}

/// A port-5003 packet split into its chat blocks (field 2, 3 or 4, with the
/// field number) and its recruitment/asset blocks (field 18).
#[derive(Debug)]
pub struct SplitPayload {
    pub channel: String,
    pub chat_blocks: Vec<(u32, Vec<u8>)>,
    pub recruit_asset_blocks: Vec<Vec<u8>>,
}

/// The abstract value of a split packet: (channel, chat blocks,
/// recruitment/asset blocks, whether a channel id was seen).
pub struct SplitView {
    pub channel: Seq<char>,
    pub chat_blocks: Seq<(u32, Seq<u8>)>,
    pub recruit_asset_blocks: Seq<Seq<u8>>,
    pub valid: bool,
}

/// The chat blocks of a split packet.
pub open spec fn chat_blocks_view(v: Seq<(u32, Vec<u8>)>) -> Seq<(u32, Seq<u8>)> {
    v.map_values(|b: (u32, Vec<u8>)| (b.0, b.1@))
}

/// The recruitment/asset blocks of a split packet.
pub open spec fn blocks_view(v: Seq<Vec<u8>>) -> Seq<Seq<u8>> {
    v.map_values(|b: Vec<u8>| b@)
}

/// One field of the packet at `i`, within `se`: a length-delimited field 2,
/// 3 or 4 is a chat block and field 18 a recruitment/asset block; a varint
/// field 1 is the channel id (and makes the packet a chat packet).
pub open spec fn stage1_step(data: Seq<u8>, i: int, se: int, acc: SplitView) -> (SplitView, int) {
    let tag = data[i];
    let wt = tag & 0x07;
    let field = (tag >> 3) as u32;
    let p = i + 1;
    let rest = data.subrange(p, se);
    if wt == 2 {
        let s = p + lenient_len(rest);
        let be = min_int(s + lenient_value(rest), se);
        let sub = data.subrange(s, be);
        let acc2 = if field == 2 || field == 3 || field == 4 {
            SplitView { chat_blocks: acc.chat_blocks.push((field, sub)), ..acc }
        } else if field == 18 {
            SplitView { recruit_asset_blocks: acc.recruit_asset_blocks.push(sub), ..acc }
        } else {
            acc
        };
        (acc2, be)
    } else if wt == 0 {
        let acc2 = if field == 1 {
            SplitView { valid: true, channel: channel_name(lenient_value(rest)), ..acc }
        } else {
            acc
        };
        (acc2, p + lenient_len(rest))
    } else {
        (acc, min_int(p + lenient_skip_len(wt, rest), se))
    }
}

/// The packet split from `i` to `se`.
pub open spec fn stage1_scan(data: Seq<u8>, i: int, se: int, acc: SplitView) -> SplitView
    decreases se - i,
{
    if i < 0 || i >= se || se > data.len() {
        acc
    } else {
        proof {
            let rest = data.subrange(i + 1, se);
            lemma_lenient_len(rest);
            lemma_lenient_skip_nonneg(data[i] & 0x07, rest);
        }
        stage1_scan(data, stage1_step(data, i, se, acc).1, se, stage1_step(data, i, se, acc).0)
    }
}

/// The split of a packet: `None` unless it is "0x0A, length, fields" and
/// carries a channel id.
pub open spec fn stage1_of(data: Seq<u8>) -> Option<SplitView> {
    if data.len() < 3 || data[0] != 0x0A {
        None
    } else {
        let rest = data.skip(1);
        let first = 1 + lenient_len(rest);
        let se = min_int(first + lenient_value(rest), data.len() as int);
        let v = stage1_scan(
            data,
            first,
            se,
            SplitView { channel: "WORLD"@, chat_blocks: Seq::empty(), recruit_asset_blocks: Seq::empty(), valid: false },
        );
        if v.valid {
            Some(v)
        } else {
            None
        }
    }
}

/// The abstract value of a split packet.
pub open spec fn split_view(p: SplitPayload, valid: bool) -> SplitView {
    SplitView {
        channel: p.channel@,
        chat_blocks: chat_blocks_view(p.chat_blocks@),
        recruit_asset_blocks: blocks_view(p.recruit_asset_blocks@),
        valid,
    }
}

/// Splits a port-5003 packet into chat and recruitment/asset blocks; server
/// and metadata packets (no channel id) give `None`.
pub fn stage1_split(data: &[u8]) -> (r: Option<SplitPayload>)
    ensures
        match (r, stage1_of(data@)) {
            (Some(p), Some(v)) => split_view(p, true) == v,
            (None, None) => true,
            _ => false,
        },
{
    if data.len() < 3 || data[0] != 0x0A {
        return None;
    }
    let mut payload = SplitPayload {
        channel: String::from_str("WORLD"),
        chat_blocks: Vec::new(),
        recruit_asset_blocks: Vec::new(),
    };
    let (total_len, header_read) = varint_at(data, 1);
    let first = header_read;
    let safe_end = clamp_add(first, total_len, data.len());
    let mut valid = false;
    let mut i = first;
    let ghost init = SplitView {
        channel: "WORLD"@,
        chat_blocks: Seq::empty(),
        recruit_asset_blocks: Seq::empty(),
        valid: false,
    };
    assert(chat_blocks_view(payload.chat_blocks@) =~= Seq::<(u32, Seq<u8>)>::empty());
    assert(blocks_view(payload.recruit_asset_blocks@) =~= Seq::<Seq<u8>>::empty());
    assert(split_view(payload, valid) == init);
    while i < safe_end
        invariant
            first <= i <= safe_end,
            safe_end <= data@.len(),
            first as int == 1 + lenient_len(data@.skip(1)),
            safe_end as int == min_int(first + lenient_value(data@.skip(1)), data@.len() as int),
            stage1_scan(data@, i as int, safe_end as int, split_view(payload, valid)) == stage1_scan(
                data@,
                first as int,
                safe_end as int,
                init,
            ),
        decreases safe_end - i,
    {
        let tag = data[i];
        let wire_type = tag & 0x07;
        let field_num = (tag >> 3) as u32;
        let p = i + 1;
        let rest = &data[p..safe_end];
        let ghost before = split_view(payload, valid);
        proof {
            lemma_lenient_len(rest@);
            lemma_lenient_skip_nonneg(wire_type, rest@);
        }
        if wire_type == 2 {
            let (len, read) = read_varint(rest);
            let s = p + read;
            let be = clamp_add(s, len, safe_end);
            let sub = vstd::slice::slice_to_vec(&data[s..be]);
            if field_num == 2 || field_num == 3 || field_num == 4 {
                payload.chat_blocks.push((field_num, sub));
                assert(chat_blocks_view(payload.chat_blocks@) =~= before.chat_blocks.push(
                    (field_num, data@.subrange(s as int, be as int)),
                ));
            } else if field_num == 18 {
                payload.recruit_asset_blocks.push(sub);
                assert(blocks_view(payload.recruit_asset_blocks@) =~= before.recruit_asset_blocks.push(
                    data@.subrange(s as int, be as int),
                ));
            }
            i = be;
        } else if wire_type == 0 {
            let (val, read) = read_varint(rest);
            if field_num == 1 {
                valid = true;
                payload.channel = channel_label(val);
            }
            i = p + read;
        } else {
            let skipped = skip_field(wire_type, rest);
            i = clamp_add(p, skipped as u64, safe_end);
        }
    }
    if valid {
        Some(payload)
    } else {
        None
    }
}

/// A party recruitment seen on the lobby board.
#[derive(Debug)]
pub struct LobbyRecruitment {
    pub party_id: u64,
    pub leader_nickname: String,
    pub description: String,
    pub recruit_id: String,
    pub member_count: u32,
    pub max_members: u32,
    pub timestamp: u64,
    pub translated: Option<String>,
    pub nickname_romaji: Option<String>,
}

/// A player's profile pictures.
#[derive(Debug)]
pub struct ProfileAsset {
    pub uid: u64,
    pub snapshot_url: String,
    pub halflength_url: String,
    pub status_text: String,
    pub timestamp: u64,
    pub translated: Option<String>,
}

/// What a port-5003 packet yields.
#[derive(Debug)]
pub enum Port5003Event {
    Chat(ChatMessage),
    Recruit(LobbyRecruitment),
    Asset(ProfileAsset),
}

/// The abstract value of an event: a chat message; a recruitment as
/// (leader, description, recruitment id, time); an asset as (uid, snapshot
/// URL, half-length URL, time). Other fields stay empty.
pub enum EventView {
    Chat(ChatMessageView),
    Recruit(Seq<char>, Seq<char>, Seq<char>, u64),
    Asset(u64, Seq<char>, Seq<char>, u64),
}

/// Whether a recruitment or asset has only its read fields set.
pub open spec fn plain_event(e: Port5003Event) -> bool {
    match e {
        Port5003Event::Chat(_) => true,
        Port5003Event::Recruit(l) => l.party_id == 0 && l.member_count == 0 && l.max_members == 0
            && l.translated is None && l.nickname_romaji is None,
        Port5003Event::Asset(a) => a.status_text@.len() == 0 && a.translated is None,
    }
}

/// The abstract value of an event.
pub open spec fn event_view(e: Port5003Event) -> EventView {
    match e {
        Port5003Event::Chat(c) => EventView::Chat(c@),
        Port5003Event::Recruit(l) => EventView::Recruit(l.leader_nickname@, l.description@, l.recruit_id@, l.timestamp),
        Port5003Event::Asset(a) => EventView::Asset(a.uid, a.snapshot_url@, a.halflength_url@, a.timestamp),
    }
}

/// The message that a chat block yields: field 2 or 3 is a user container;
/// field 4 carries the text under 0x1A and may set the channel (0x10: 3 is
/// PARTY, 4 GUILD).
pub open spec fn chat_block_message(channel: Seq<char>, field: u32, block: Seq<u8>) -> ChatMessageView {
    let c0 = ChatMessageView { channel, ..ChatMessageView::empty() };
    if field == 2 || field == 3 {
        user_scan(block, 0, c0)
    } else if field == 4 {
        match find_string_from(block, 0x1A, 0) {
            Some(m) => {
                let c1 = ChatMessageView { message: m, ..c0 };
                match find_int_from(block, 0x10, 0) {
                    Some(id) => if id == 3 {
                        ChatMessageView { channel: "PARTY"@, ..c1 }
                    } else if id == 4 {
                        ChatMessageView { channel: "GUILD"@, ..c1 }
                    } else {
                        c1
                    },
                    None => c1,
                }
            },
            None => c0,
        }
    } else {
        c0
    }
}

/// After the first `k` chat blocks: the chat events, and the last sender
/// UID, nickname and timestamp seen (for the blocks that follow).
pub open spec fn chat_pass(channel: Seq<char>, blocks: Seq<(u32, Seq<u8>)>, k: nat) -> (Seq<EventView>, u64, Seq<char>, u64)
    decreases k,
{
    if k == 0 {
        (Seq::empty(), 0, Seq::empty(), 0)
    } else {
        let prev = chat_pass(channel, blocks, (k - 1) as nat);
        let c = chat_block_message(channel, blocks[k - 1].0, blocks[k - 1].1);
        let uid = if c.uid > 0 {
            c.uid
        } else {
            prev.1
        };
        let nick = if c.nickname.len() > 0 {
            c.nickname
        } else {
            prev.2
        };
        let ts = if c.timestamp > 0 {
            c.timestamp
        } else {
            prev.3
        };
        let evs = if c.message.len() > 0 && c.uid > 0 {
            prev.0.push(EventView::Chat(c))
        } else {
            prev.0
        };
        (evs, uid, nick, ts)
    }
}

/// The recruitment id in a description: what follows the first "ID:" up to
/// the next "ID:" or the end.
pub open spec fn recruit_id_of(text: Seq<char>) -> Seq<char> {
    match first_from(text, "ID:"@, 0) {
        Some(i) => {
            let rest = text.skip(i + 3);
            match first_from(rest, "ID:"@, 0) {
                Some(j) => rest.take(j),
                None => rest,
            }
        },
        None => Seq::empty(),
    }
}

/// The events of the first `k` recruitment/asset blocks, given the sender
/// context: a text with "ID:" is a recruitment, one with "https://" an asset
/// (a snapshot URL when it says "snapshot", else a half-length one).
pub open spec fn board_pass(blocks: Seq<Seq<u8>>, uid: u64, nick: Seq<char>, ts: u64, k: nat) -> Seq<EventView>
    decreases k,
{
    if k == 0 {
        Seq::empty()
    } else {
        let prev = board_pass(blocks, uid, nick, ts, (k - 1) as nat);
        let text = utf8_lossy(blocks[k - 1]);
        if has_substring(text, "ID:"@) {
            prev.push(EventView::Recruit(nick, text, recruit_id_of(text), ts))
        } else if has_substring(text, "https://"@) {
            if has_substring(text, "snapshot"@) {
                prev.push(EventView::Asset(uid, text, Seq::empty(), ts))
            } else {
                prev.push(EventView::Asset(uid, Seq::empty(), text, ts))
            }
        } else {
            prev
        }
    }
}

/// The events of a split packet: its chat messages, then its recruitments
/// and assets.
pub open spec fn stage2_of(v: SplitView) -> Seq<EventView> {
    let c = chat_pass(v.channel, v.chat_blocks, v.chat_blocks.len());
    c.0 + board_pass(v.recruit_asset_blocks, c.1, c.2, c.3, v.recruit_asset_blocks.len())
}

/// The recruitment id in a description.
fn recruit_id(text: &str) -> (r: String)
    ensures
        r@ == recruit_id_of(text@),
{
    let v = chars_of(text);
    let pat = chars_of("ID:");
    proof {
        reveal_strlit("ID:");
        assert("ID:"@.len() == 3);
    }
    let found = find_from(&v, &pat, 0);
    proof {
        lemma_first_from(text@, "ID:"@, 0, match found { Some(i) => Some(i as int), None => None });
    }
    match found {
        None => String::new(),
        Some(i) => {
            let vl = v.len();
            assert(pat@.len() == 3);
            assert(i + 3 <= vl);
            let start = i + 3;
            let ghost rest = text@.skip(start as int);
            let next = find_from(&v, &pat, start);
            match next {
                Some(j) => {
                    proof {
                        assert forall|m: int| 0 <= m < j - start implies !#[trigger] crate::text::occurs_at(rest, "ID:"@, m) by {
                            if m + 3 <= rest.len() {
                                assert(rest.subrange(m, m + 3) =~= text@.subrange(start + m, start + m + 3));
                            }
                            assert(!crate::text::occurs_at(text@, "ID:"@, start + m));
                        }
                        assert(rest.subrange(j - start, j - start + 3) =~= text@.subrange(j as int, j + 3));
                        lemma_first_from(rest, "ID:"@, 0, Some(j - start));
                    }
                    text.substring_char(start, j).to_owned()
                },
                None => {
                    proof {
                        assert forall|m: int| 0 <= m implies !#[trigger] crate::text::occurs_at(rest, "ID:"@, m) by {
                            if m + 3 <= rest.len() {
                                assert(rest.subrange(m, m + 3) =~= text@.subrange(start + m, start + m + 3));
                            }
                            assert(!crate::text::occurs_at(text@, "ID:"@, start + m));
                        }
                        lemma_first_from(rest, "ID:"@, 0, None);
                    }
                    text.substring_char(start, v.len()).to_owned()
                },
            }
        },
    }
}

/// The message of one chat block.
fn chat_from_block(channel: &String, field: u32, block: &Vec<u8>) -> (r: ChatMessage)
    ensures
        r@ == chat_block_message(channel@, field, block@),
{
    let mut chat = ChatMessage::default();
    chat.channel = channel.clone();
    if field == 2 || field == 3 {
        parse_user_container(block.as_slice(), &mut chat);
    } else if field == 4 {
        if let Some(msg) = find_string_by_tag(block.as_slice(), 0x1A) {
            chat.message = msg;
            if let Some(chan_id) = find_int_by_tag(block.as_slice(), 0x10) {
                if chan_id == 3 {
                    chat.channel = String::from_str("PARTY");
                } else if chan_id == 4 {
                    chat.channel = String::from_str("GUILD");
                }
            }
        }
    }
    chat
}

/// Turns a split packet into events: chat messages that have a text and a
/// sender, then recruitments and assets read with the last sender seen.
pub fn stage2_process(raw: SplitPayload) -> (r: Vec<Port5003Event>)
    ensures
        r@.map_values(|e: Port5003Event| event_view(e)) == stage2_of(split_view(raw, true)),
        forall|i: int| 0 <= i < r@.len() ==> plain_event(#[trigger] r@[i]),
{
    let ghost v = split_view(raw, true);
    let mut events: Vec<Port5003Event> = Vec::new();
    let mut ctx_uid: u64 = 0;
    let mut ctx_nickname = String::new();
    let mut ctx_timestamp: u64 = 0;
    let mut k: usize = 0;
    while k < raw.chat_blocks.len()
        invariant
            v == split_view(raw, true),
            k <= raw.chat_blocks@.len(),
            ({
                let c = chat_pass(v.channel, v.chat_blocks, k as nat);
                &&& events@.map_values(|e: Port5003Event| event_view(e)) == c.0
                &&& ctx_uid == c.1
                &&& ctx_nickname@ == c.2
                &&& ctx_timestamp == c.3
            }),
            forall|i: int| 0 <= i < events@.len() ==> plain_event(#[trigger] events@[i]),
        decreases raw.chat_blocks@.len() - k,
    {
        let chat = chat_from_block(&raw.channel, raw.chat_blocks[k].0, &raw.chat_blocks[k].1);
        proof {
            assert(v.chat_blocks[k as int] == (raw.chat_blocks@[k as int].0, raw.chat_blocks@[k as int].1@));
        }
        if chat.uid > 0 {
            ctx_uid = chat.uid;
        }
        if !chat.nickname.as_str().is_empty() {
            ctx_nickname = chat.nickname.clone();
        }
        if chat.timestamp > 0 {
            ctx_timestamp = chat.timestamp;
        }
        if !chat.message.as_str().is_empty() && chat.uid > 0 {
            let ghost before = events@.map_values(|e: Port5003Event| event_view(e));
            let ghost cv = chat@;
            events.push(Port5003Event::Chat(chat));
            assert(events@.map_values(|e: Port5003Event| event_view(e)) =~= before.push(EventView::Chat(cv)));
        }
        k += 1;
    }
    let ghost chats = events@.map_values(|e: Port5003Event| event_view(e));
    let mut b: usize = 0;
    assert(chats + board_pass(v.recruit_asset_blocks, ctx_uid, ctx_nickname@, ctx_timestamp, 0) =~= chats);
    while b < raw.recruit_asset_blocks.len()
        invariant
            v == split_view(raw, true),
            b <= raw.recruit_asset_blocks@.len(),
            events@.map_values(|e: Port5003Event| event_view(e)) == chats + board_pass(
                v.recruit_asset_blocks,
                ctx_uid,
                ctx_nickname@,
                ctx_timestamp,
                b as nat,
            ),
            forall|i: int| 0 <= i < events@.len() ==> plain_event(#[trigger] events@[i]),
        decreases raw.recruit_asset_blocks@.len() - b,
    {
        let text = decode_utf8_lossy(raw.recruit_asset_blocks[b].as_slice());
        proof {
            assert(v.recruit_asset_blocks[b as int] == raw.recruit_asset_blocks@[b as int]@);
        }
        let ghost before = events@.map_values(|e: Port5003Event| event_view(e));
        if contains_text(text.as_str(), "ID:") {
            let id = recruit_id(text.as_str());
            let ev = Port5003Event::Recruit(
                LobbyRecruitment {
                    party_id: 0,
                    leader_nickname: ctx_nickname.clone(),
                    description: text,
                    recruit_id: id,
                    member_count: 0,
                    max_members: 0,
                    timestamp: ctx_timestamp,
                    translated: None,
                    nickname_romaji: None,
                },
            );
            let ghost evv = event_view(ev);
            events.push(ev);
            assert(events@.map_values(|e: Port5003Event| event_view(e)) =~= before.push(evv));
        } else if contains_text(text.as_str(), "https://") {
            let snap = contains_text(text.as_str(), "snapshot");
            let ev = if snap {
                Port5003Event::Asset(
                    ProfileAsset {
                        uid: ctx_uid,
                        snapshot_url: text,
                        halflength_url: String::new(),
                        status_text: String::new(),
                        timestamp: ctx_timestamp,
                        translated: None,
                    },
                )
            } else {
                Port5003Event::Asset(
                    ProfileAsset {
                        uid: ctx_uid,
                        snapshot_url: String::new(),
                        halflength_url: text,
                        status_text: String::new(),
                        timestamp: ctx_timestamp,
                        translated: None,
                    },
                )
            };
            let ghost evv = event_view(ev);
            events.push(ev);
            assert(events@.map_values(|e: Port5003Event| event_view(e)) =~= before.push(evv));
        }
        b += 1;
    }
    events
}

/// The value that std's `DefaultHasher` gives for a `String`.
/// Hash values are not portable across platforms or Rust releases; within
/// one program, equal inputs always give equal values, which is all that is
/// relied on.
pub uninterp spec fn text_hash(s: Seq<char>) -> u64;

/// Hashes a text.
///
/// Trusted: hashes the string with
/// `std::collections::hash_map::DefaultHasher::new()` (fixed keys) and
/// `finish`; the result is named `text_hash`.
#[verifier::external_body]
fn hash_text(s: &String) -> (r: u64)
    ensures
        r == text_hash(s@),
{
    let mut hasher = std::collections::hash_map::DefaultHasher::new();
    s.hash(&mut hasher);
    hasher.finish()
}

/// An entity is forgotten after this many milliseconds without being seen.
pub const ENTITY_TTL_MS: u64 = 300_000;

/// The recruitments and assets already emitted: (key, content hash, last
/// seen in milliseconds).
pub struct EmissionCache {
    entries: Vec<(String, u64, u64)>,
}

/// The abstract entries of an emission cache.
pub open spec fn emission_view(e: Seq<(String, u64, u64)>) -> Seq<(Seq<char>, u64, u64)> {
    e.map_values(|x: (String, u64, u64)| (x.0@, x.1, x.2))
}

/// The place of `key` in the cache, if any.
pub open spec fn entry_index(e: Seq<(Seq<char>, u64, u64)>, key: Seq<char>) -> Option<int>
    decreases e.len(),
{
    if e.len() == 0 {
        None
    } else if e.last().0 == key {
        Some(e.len() - 1)
    } else {
        entry_index(e.drop_last(), key)
    }
}

pub proof fn lemma_entry_index(e: Seq<(Seq<char>, u64, u64)>, key: Seq<char>)
    ensures
        match entry_index(e, key) {
            Some(i) => 0 <= i < e.len() && e[i].0 == key,
            None => true,
        },
    decreases e.len(),
{
    if e.len() > 0 && e.last().0 != key {
        lemma_entry_index(e.drop_last(), key);
    }
}

/// The cache key and content hash of an event that is deduplicated: a
/// recruitment by its id and description, an asset by its uid and snapshot
/// URL; chat messages are not (`None`).
pub open spec fn dedupe_key(e: EventView) -> Option<(Seq<char>, u64)> {
    match e {
        EventView::Chat(_) => None,
        EventView::Recruit(_, description, id, _) => Some(("recruit_"@ + id, text_hash(description))),
        EventView::Asset(uid, snapshot, _, _) => Some(("asset_"@ + decimal_text(uid as nat), text_hash(snapshot))),
    }
}

/// Whether an event is emitted, and the cache after it: an entity seen again
/// is emitted only when its content changed, and its time is refreshed.
pub open spec fn emission(e: Seq<(Seq<char>, u64, u64)>, ev: EventView, now: u64) -> (bool, Seq<(Seq<char>, u64, u64)>) {
    match dedupe_key(ev) {
        None => (true, e),
        Some((key, h)) => sighting(e, key, h, now),
    }
}

/// Whether an entity seen at `now` with content hash `h` is news, and the
/// cache after it: news unless it was seen before with the same hash; its
/// entry is refreshed or added.
pub open spec fn sighting(e: Seq<(Seq<char>, u64, u64)>, key: Seq<char>, h: u64, now: u64) -> (bool, Seq<(Seq<char>, u64, u64)>) {
    match entry_index(e, key) {
        Some(k) => (e[k].1 != h, e.update(k, (key, h, now))),
        None => (true, e.push((key, h, now))),
    }
}

/// The entries still fresh at `now`, and the keys of those dropped.
pub open spec fn swept(e: Seq<(Seq<char>, u64, u64)>, now: u64) -> (Seq<(Seq<char>, u64, u64)>, Seq<Seq<char>>)
    decreases e.len(),
{
    if e.len() == 0 {
        (Seq::empty(), Seq::empty())
    } else {
        let prev = swept(e.drop_last(), now);
        let x = e.last();
        if now > x.2 && now - x.2 > ENTITY_TTL_MS {
            (prev.0, prev.1.push(x.0))
        } else {
            (prev.0.push(x), prev.1)
        }
    }
}

impl View for EmissionCache {
    type V = Seq<(Seq<char>, u64, u64)>;

    closed spec fn view(&self) -> Seq<(Seq<char>, u64, u64)> {
        emission_view(self.entries@)
    }
}

impl EmissionCache {
    /// An empty cache.
    pub fn new() -> (c: Self)
        ensures
            c@.len() == 0,
    {
        EmissionCache { entries: Vec::new() }
    }

    /// The place of `key`, the last one when it occurs more than once.
    fn index_of(&self, key: &str) -> (r: Option<usize>)
        ensures
            match (r, entry_index(self@, key@)) {
                (Some(i), Some(k)) => i as int == k,
                (None, None) => true,
                _ => false,
            },
    {
        let ghost e = self@;
        let mut i = self.entries.len();
        assert(e.take(i as int) =~= e);
        while i > 0
            invariant
                e == self@,
                i <= e.len(),
                entry_index(e, key@) == entry_index(e.take(i as int), key@),
            decreases i,
        {
            assert(e.take(i as int).last() == e[i - 1]);
            assert(e.take(i as int).drop_last() =~= e.take(i - 1));
            if same_text(self.entries[i - 1].0.as_str(), key) {
                return Some(i - 1);
            }
            i -= 1;
        }
        None
    }

    /// Decides whether to emit a recruitment or asset event (chat always
    /// goes through) and records it as seen at `now_ms`.
    pub fn should_emit(&mut self, event: &Port5003Event, now_ms: u64) -> (r: bool)
        ensures
            (r, final(self)@) == emission(old(self)@, event_view(*event), now_ms),
    {
        let (key, content) = match event {
            Port5003Event::Chat(_) => {
                return true;
            },
            Port5003Event::Recruit(l) => {
                let mut k = String::from_str("recruit_");
                k.append(l.recruit_id.as_str());
                (k, &l.description)
            },
            Port5003Event::Asset(a) => {
                let mut k = String::from_str("asset_");
                let d = decimal(a.uid);
                k.append(d.as_str());
                (k, &a.snapshot_url)
            },
        };
        let new_hash = hash_text(content);
        self.record_sighting(key, new_hash, now_ms)
    }

    /// Records that the entity `key` was seen at `now_ms` with content hash
    /// `content_hash`, and says whether that is news: a first sighting, or
    /// content that changed since the last one.
    pub fn record_sighting(&mut self, key: String, content_hash: u64, now_ms: u64) -> (r: bool)
        ensures
            (r, final(self)@) == sighting(old(self)@, key@, content_hash, now_ms),
    {
        let ghost before = self@;
        proof {
            lemma_entry_index(before, key@);
        }
        match self.index_of(key.as_str()) {
            Some(i) => {
                let old_hash = self.entries[i].1;
                let ghost kv = key@;
                self.entries.set(i, (key, content_hash, now_ms));
                assert(self@ =~= before.update(i as int, (kv, content_hash, now_ms)));
                old_hash != content_hash
            },
            None => {
                let ghost kv = key@;
                self.entries.push((key, content_hash, now_ms));
                assert(self@ =~= before.push((kv, content_hash, now_ms)));
                true
            },
        }
    }

    /// Forgets the entities not seen for [`ENTITY_TTL_MS`] and gives their
    /// keys (for "remove-entity" events).
    pub fn sweep(&mut self, now_ms: u64) -> (r: Vec<String>)
        ensures
            final(self)@ == swept(old(self)@, now_ms).0,
            r@.map_values(|k: String| k@) == swept(old(self)@, now_ms).1,
    {
        let ghost e = self@;
        let mut kept: Vec<(String, u64, u64)> = Vec::new();
        let mut removed: Vec<String> = Vec::new();
        let mut i: usize = 0;
        while i < self.entries.len()
            invariant
                e == self@,
                i <= e.len(),
                emission_view(kept@) == swept(e.take(i as int), now_ms).0,
                removed@.map_values(|k: String| k@) == swept(e.take(i as int), now_ms).1,
            decreases e.len() - i,
        {
            let x = &self.entries[i];
            proof {
                assert(e.take(i + 1).drop_last() =~= e.take(i as int));
                assert(e.take(i + 1).last() == e[i as int]);
            }
            let ghost bk = emission_view(kept@);
            let ghost br = removed@.map_values(|k: String| k@);
            if now_ms > x.2 && now_ms - x.2 > ENTITY_TTL_MS {
                removed.push(x.0.clone());
                assert(removed@.map_values(|k: String| k@) =~= br.push(e[i as int].0));
            } else {
                kept.push((x.0.clone(), x.1, x.2));
                assert(emission_view(kept@) =~= bk.push(e[i as int]));
            }
            i += 1;
        }
        proof {
            assert(e.take(e.len() as int) =~= e);
        }
        self.entries = kept;
        removed
    }
}

/// The field numbers of port 5003 already known when the capture starts.
pub open spec fn known_5003_fields() -> Set<u32> {
    set![0, 1, 2, 3, 4, 5, 6, 7, 12, 16, 17, 18, 21, 22, 23, 24, 25, 26, 29, 30, 31]
}

/// The field numbers seen so far, so that a new one is reported once.
pub struct DiscoveredFields {
    pub fields: HashSet<u32>,
}

impl DiscoveredFields {
    /// The fields known at start.
    pub fn new_5003() -> (d: Self)
        ensures
            d.fields@ == known_5003_fields(),
    {
        broadcast use vstd::std_specs::hash::group_hash_axioms;

        let mut fields: HashSet<u32> = HashSet::new();
        fields.insert(0);
        fields.insert(1);
        fields.insert(2);
        fields.insert(3);
        fields.insert(4);
        fields.insert(5);
        fields.insert(6);
        fields.insert(7);
        fields.insert(12);
        fields.insert(16);
        fields.insert(17);
        fields.insert(18);
        fields.insert(21);
        fields.insert(22);
        fields.insert(23);
        fields.insert(24);
        fields.insert(25);
        fields.insert(26);
        fields.insert(29);
        fields.insert(30);
        fields.insert(31);
        assert(fields@ =~= known_5003_fields());
        DiscoveredFields { fields }
    }

    /// Records a field number and tells whether it is new (to be logged with
    /// its packet).
    pub fn record(&mut self, field_num: u32) -> (r: bool)
        ensures
            r == !old(self).fields@.contains(field_num),
            final(self).fields@ == old(self).fields@.insert(field_num),
    {
        broadcast use vstd::std_specs::hash::group_hash_axioms;

        self.fields.insert(field_num)
    }
}

/// The events that pass the emission cache, in order, and the cache after
/// the first `k` events of `evs` at `now`.
pub open spec fn emitted(e: Seq<(Seq<char>, u64, u64)>, evs: Seq<EventView>, now: u64, k: nat) -> (Seq<EventView>, Seq<
    (Seq<char>, u64, u64),
>)
    decreases k,
{
    if k == 0 {
        (Seq::empty(), e)
    } else {
        let prev = emitted(e, evs, now, (k - 1) as nat);
        let step = emission(prev.1, evs[k - 1], now);
        (if step.0 {
            prev.0.push(evs[k - 1])
        } else {
            prev.0
        }, step.1)
    }
}

/// Decodes a port-5003 packet and keeps the events to emit at `now_ms`: chat
/// messages always (they are deduplicated by the history), recruitments and
/// assets when new or changed.
pub fn parse_and_emit_5003(data: &[u8], cache: &mut EmissionCache, now_ms: u64) -> (r: Vec<Port5003Event>)
    ensures
        match stage1_of(data@) {
            None => r@.len() == 0 && final(cache)@ == old(cache)@,
            Some(v) => {
                let out = emitted(old(cache)@, stage2_of(v), now_ms, stage2_of(v).len());
                &&& r@.map_values(|e: Port5003Event| event_view(e)) == out.0
                &&& final(cache)@ == out.1
            },
        },
{
    let raw = match stage1_split(data) {
        Some(p) => p,
        None => {
            return Vec::new();
        },
    };
    let ghost evs = stage2_of(split_view(raw, true));
    let mut events = stage2_process(raw);
    let ghost start = cache@;
    let mut out: Vec<Port5003Event> = Vec::new();
    let n = events.len();
    let mut k: usize = 0;
    let ghost ev0 = events@;
    assert(ev0.skip(0) =~= ev0);
    while k < n
        invariant
            n == ev0.len(),
            k <= n,
            ev0.map_values(|e: Port5003Event| event_view(e)) == evs,
            events@ == ev0.skip(k as int),
            ({
                let o = emitted(start, evs, now_ms, k as nat);
                &&& out@.map_values(|e: Port5003Event| event_view(e)) == o.0
                &&& cache@ == o.1
            }),
        decreases n - k,
    {
        let ev = events.remove(0);
        proof {
            assert(ev == ev0[k as int]);
            assert(events@ =~= ev0.skip(k + 1));
            assert(evs[k as int] == event_view(ev));
        }
        let ghost before = out@.map_values(|e: Port5003Event| event_view(e));
        let ghost evv = event_view(ev);
        if cache.should_emit(&ev, now_ms) {
            out.push(ev);
            assert(out@.map_values(|e: Port5003Event| event_view(e)) =~= before.push(evv));
        }
        k += 1;
    }
    out
}

} // verus!
