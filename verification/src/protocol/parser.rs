//! Field-mapped parsing of the chat packets of port 5003.

use crate::protocol::decoder::{
    block_at, block_end, block_start, clamp_add, find_int_by_tag, find_int_from, find_string_by_tag,
    find_string_from, lemma_field_bounds, min_int, read_varint, skip_at, skip_end, varint_at,
    varint_end, varint_len, varint_value,
};
use crate::protocol::types::{ChatMessage, ChatMessageView, FieldSection, UnknownFields};
use crate::text::{decode_utf8_lossy, utf8_lossy};
use vstd::prelude::*;
use vstd::slice::slice_to_vec;

verus! {

/// Unrecognised fields as a map from (section, tag) to raw bytes.
pub type FieldMap = Map<(FieldSection, u8), Seq<u8>>;

/// The player block of a chat payload.
#[derive(Debug)]
pub struct SenderInfo {
    pub uid: u64,
    pub nickname: String,
    pub class_id: u64,
    pub status: u64,
    pub level: u64,
    pub is_blocked: bool,
    pub unknown_fields: UnknownFields,
}

/// The abstract value of a [`SenderInfo`].
pub struct SenderInfoView {
    pub uid: u64,
    pub nickname: Seq<char>,
    pub class_id: u64,
    pub status: u64,
    pub level: u64,
    pub is_blocked: bool,
    pub unknown_fields: FieldMap,
}

impl SenderInfoView {
    /// All numbers zero, texts empty, nothing unknown.
    pub open spec fn empty() -> SenderInfoView {
        SenderInfoView {
            uid: 0,
            nickname: Seq::empty(),
            class_id: 0,
            status: 0,
            level: 0,
            is_blocked: false,
            unknown_fields: Map::empty(),
        }
    }
}

impl View for SenderInfo {
    type V = SenderInfoView;

    open spec fn view(&self) -> SenderInfoView {
        SenderInfoView {
            uid: self.uid,
            nickname: self.nickname@,
            class_id: self.class_id,
            status: self.status,
            level: self.level,
            is_blocked: self.is_blocked,
            unknown_fields: self.unknown_fields@,
        }
    }
}

impl Default for SenderInfo {
    fn default() -> (r: Self)
        ensures
            r@ == SenderInfoView::empty(),
    {
        SenderInfo {
            uid: 0,
            nickname: String::new(),
            class_id: 0,
            status: 0,
            level: 0,
            is_blocked: false,
            unknown_fields: UnknownFields::new(),
        }
    }
}

/// The payload of a chat message (the body of field 2 of a chat packet).
#[derive(Debug)]
pub struct ChatPayload {
    pub session_id: u64,
    pub sender: SenderInfo,
    pub timestamp: u64,
    pub message: String,
    pub unknown_fields: UnknownFields,
}

/// The abstract value of a [`ChatPayload`].
pub struct ChatPayloadView {
    pub session_id: u64,
    pub sender: SenderInfoView,
    pub timestamp: u64,
    pub message: Seq<char>,
    pub unknown_fields: FieldMap,
}

impl ChatPayloadView {
    /// All numbers zero, texts empty, nothing unknown.
    pub open spec fn empty() -> ChatPayloadView {
        ChatPayloadView {
            session_id: 0,
            sender: SenderInfoView::empty(),
            timestamp: 0,
            message: Seq::empty(),
            unknown_fields: Map::empty(),
        }
    }
}

impl View for ChatPayload {
    type V = ChatPayloadView;

    open spec fn view(&self) -> ChatPayloadView {
        ChatPayloadView {
            session_id: self.session_id,
            sender: self.sender@,
            timestamp: self.timestamp,
            message: self.message@,
            unknown_fields: self.unknown_fields@,
        }
    }
}

impl Default for ChatPayload {
    fn default() -> (r: Self)
        ensures
            r@ == ChatPayloadView::empty(),
    {
        ChatPayload {
            session_id: 0,
            sender: SenderInfo::default(),
            timestamp: 0,
            message: String::new(),
            unknown_fields: UnknownFields::new(),
        }
    }
}

/// The bytes of `data` from `start` to `end`.
pub open spec fn span(data: Seq<u8>, start: int, end: int) -> Seq<u8> {
    data.subrange(start, end)
}

/// One field of the sender block, at tag position `i`: the updated sender and
/// the position of the next tag.
pub open spec fn sender_step(data: Seq<u8>, i: int, acc: SenderInfoView) -> (SenderInfoView, int) {
    let tag = data[i];
    let p = i + 1;
    if tag == 8 {
        (SenderInfoView { uid: varint_value(data.skip(p)), ..acc }, varint_end(data, p))
    } else if tag == 18 {
        (
            SenderInfoView {
                nickname: utf8_lossy(span(data, block_start(data, p), block_end(data, p))),
                ..acc
            },
            block_end(data, p),
        )
    } else if tag == 24 {
        (SenderInfoView { class_id: varint_value(data.skip(p)), ..acc }, varint_end(data, p))
    } else if tag == 32 {
        (SenderInfoView { status: varint_value(data.skip(p)), ..acc }, varint_end(data, p))
    } else if tag == 40 {
        (SenderInfoView { level: varint_value(data.skip(p)), ..acc }, varint_end(data, p))
    } else {
        let e = skip_end(data, p, tag & 0x07);
        (
            SenderInfoView {
                unknown_fields: acc.unknown_fields.insert((FieldSection::Sender, tag), span(data, p, e)),
                ..acc
            },
            e,
        )
    }
}

pub proof fn lemma_sender_step(data: Seq<u8>, i: int, acc: SenderInfoView)
    requires
        0 <= i < data.len(),
    ensures
        i < sender_step(data, i, acc).1 <= data.len(),
{
    lemma_field_bounds(data, i + 1, data[i] & 0x07);
}

/// The sender block parsed from tag position `i` on, starting from `acc`.
pub open spec fn sender_scan(data: Seq<u8>, i: int, acc: SenderInfoView) -> SenderInfoView
    decreases data.len() - i,
{
    if i < 0 || i >= data.len() {
        acc
    } else {
        proof {
            lemma_sender_step(data, i, acc);
        }
        sender_scan(data, sender_step(data, i, acc).1, sender_step(data, i, acc).0)
    }
}

/// Parses the sender block: tag 8 is the UID, 18 the nickname, 24 the class,
/// 32 a status flag, 40 the level; any other field is recorded as unknown.
pub fn parse_sender_info(data: &[u8]) -> (r: SenderInfo)
    ensures
        r@ == sender_scan(data@, 0, SenderInfoView::empty()),
{
    let mut sender = SenderInfo::default();
    let mut i: usize = 0;
    while i < data.len()
        invariant
            i <= data@.len(),
            sender_scan(data@, i as int, sender@) == sender_scan(data@, 0, SenderInfoView::empty()),
        decreases data@.len() - i,
    {
        let tag = data[i];
        let p = i + 1;
        proof {
            lemma_sender_step(data@, i as int, sender@);
        }
        if tag == 8 {
            let (v, n) = varint_at(data, p);
            sender.uid = v;
            i = n;
        } else if tag == 18 {
            let (s, e) = block_at(data, p);
            sender.nickname = decode_utf8_lossy(&data[s..e]);
            i = e;
        } else if tag == 24 {
            let (v, n) = varint_at(data, p);
            sender.class_id = v;
            i = n;
        } else if tag == 32 {
            let (v, n) = varint_at(data, p);
            sender.status = v;
            i = n;
        } else if tag == 40 {
            let (v, n) = varint_at(data, p);
            sender.level = v;
            i = n;
        } else {
            let e = skip_at(data, p, tag & 0x07);
            sender.unknown_fields.insert(FieldSection::Sender, tag, slice_to_vec(&data[p..e]));
            i = e;
        }
    }
    sender
}

} // verus!

verus! {

/// The state of a rich-content chunk being parsed.
pub struct ChunkState {
    pub kind: u64,
    pub text: Seq<char>,
    pub unknown: FieldMap,
}

/// One field of a chunk at tag position `i`.
pub open spec fn chunk_step(data: Seq<u8>, i: int, acc: ChunkState) -> (ChunkState, int) {
    let tag = data[i];
    let p = i + 1;
    if tag == 8 {
        (ChunkState { kind: varint_value(data.skip(p)), ..acc }, varint_end(data, p))
    } else if tag == 18 {
        let payload = span(data, block_start(data, p), block_end(data, p));
        (
            if acc.kind == 7 && find_string_from(payload, 10, 0) is Some {
                ChunkState { text: find_string_from(payload, 10, 0)->0, ..acc }
            } else {
                acc
            },
            block_end(data, p),
        )
    } else {
        let e = skip_end(data, p, tag & 0x07);
        (ChunkState { unknown: acc.unknown.insert((FieldSection::Chunk, tag), span(data, p, e)), ..acc }, e)
    }
}

pub proof fn lemma_chunk_step(data: Seq<u8>, i: int, acc: ChunkState)
    requires
        0 <= i < data.len(),
    ensures
        i < chunk_step(data, i, acc).1 <= data.len(),
{
    lemma_field_bounds(data, i + 1, data[i] & 0x07);
}

/// A chunk parsed from tag position `i` on.
pub open spec fn chunk_scan(data: Seq<u8>, i: int, acc: ChunkState) -> ChunkState
    decreases data.len() - i,
{
    if i < 0 || i >= data.len() {
        acc
    } else {
        proof {
            lemma_chunk_step(data, i, acc);
        }
        chunk_scan(data, chunk_step(data, i, acc).1, chunk_step(data, i, acc).0)
    }
}

/// The text that a chunk of the given kind stands for.
pub open spec fn chunk_label(kind: u64, text: Seq<char>) -> Seq<char> {
    if kind == 7 {
        text
    } else if kind == 3 {
        "[아이템 링크]"@
    } else if kind == 2 {
        "[개인 공간]"@
    } else if kind == 9 {
        "[물고기 자랑]"@
    } else if kind == 12 {
        "[마스터 점수]"@
    } else {
        Seq::empty()
    }
}

/// A whole chunk parsed with the unknown fields `unknown`: its text and the
/// unknown fields afterwards.
pub open spec fn chunk_result(data: Seq<u8>, unknown: FieldMap) -> (Seq<char>, FieldMap) {
    let st = chunk_scan(data, 0, ChunkState { kind: 0, text: Seq::empty(), unknown });
    (chunk_label(st.kind, st.text), st.unknown)
}

/// Parses one rich-content chunk: tag 8 is its kind, tag 18 its payload (for
/// kind 7, a text under tag 10). Kinds 3, 2, 9 and 12 stand for an item link,
/// a personal space, a fish record and a master score.
pub fn parse_chunk_block(chunk: &[u8], unknown_fields: &mut UnknownFields) -> (r: String)
    ensures
        r@ == chunk_result(chunk@, old(unknown_fields)@).0,
        final(unknown_fields)@ == chunk_result(chunk@, old(unknown_fields)@).1,
{
    let mut chunk_type: u64 = 0;
    let mut chunk_text = String::new();
    let mut l: usize = 0;
    let ghost start = ChunkState { kind: 0, text: Seq::empty(), unknown: unknown_fields@ };
    while l < chunk.len()
        invariant
            l <= chunk@.len(),
            chunk_scan(
                chunk@,
                l as int,
                ChunkState { kind: chunk_type, text: chunk_text@, unknown: unknown_fields@ },
            ) == chunk_scan(chunk@, 0, start),
        decreases chunk@.len() - l,
    {
        let c_tag = chunk[l];
        let p = l + 1;
        proof {
            lemma_chunk_step(
                chunk@,
                l as int,
                ChunkState { kind: chunk_type, text: chunk_text@, unknown: unknown_fields@ },
            );
        }
        if c_tag == 8 {
            let (v, n) = varint_at(chunk, p);
            chunk_type = v;
            l = n;
        } else if c_tag == 18 {
            let (s, e) = block_at(chunk, p);
            if chunk_type == 7 {
                if let Some(txt) = find_string_by_tag(&chunk[s..e], 10) {
                    chunk_text = txt;
                }
            }
            l = e;
        } else {
            let e = skip_at(chunk, p, c_tag & 0x07);
            unknown_fields.insert(FieldSection::Chunk, c_tag, slice_to_vec(&chunk[p..e]));
            l = e;
        }
    }
    if chunk_type == 7 {
        chunk_text
    } else if chunk_type == 3 {
        String::from_str("[아이템 링크]")
    } else if chunk_type == 2 {
        String::from_str("[개인 공간]")
    } else if chunk_type == 9 {
        String::from_str("[물고기 자랑]")
    } else if chunk_type == 12 {
        String::from_str("[마스터 점수]")
    } else {
        String::new()
    }
}

} // verus!

verus! {

/// The state of a rich-content array being parsed: the text so far and the
/// unknown fields.
pub struct RichState {
    pub text: Seq<char>,
    pub unknown: FieldMap,
}

/// One field of a rich-content array at tag position `i`.
pub open spec fn rich_step(data: Seq<u8>, i: int, acc: RichState) -> (RichState, int) {
    let tag = data[i];
    let p = i + 1;
    if tag == 18 {
        let chunk = chunk_result(span(data, block_start(data, p), block_end(data, p)), acc.unknown);
        (RichState { text: acc.text + chunk.0, unknown: chunk.1 }, block_end(data, p))
    } else {
        let e = skip_end(data, p, tag & 0x07);
        (RichState { unknown: acc.unknown.insert((FieldSection::Rich, tag), span(data, p, e)), ..acc }, e)
    }
}

pub proof fn lemma_rich_step(data: Seq<u8>, i: int, acc: RichState)
    requires
        0 <= i < data.len(),
    ensures
        i < rich_step(data, i, acc).1 <= data.len(),
{
    lemma_field_bounds(data, i + 1, data[i] & 0x07);
}

/// A rich-content array parsed from tag position `i` on.
pub open spec fn rich_scan(data: Seq<u8>, i: int, acc: RichState) -> RichState
    decreases data.len() - i,
{
    if i < 0 || i >= data.len() {
        acc
    } else {
        proof {
            lemma_rich_step(data, i, acc);
        }
        rich_scan(data, rich_step(data, i, acc).1, rich_step(data, i, acc).0)
    }
}

/// Parses a rich-content array: the texts of its chunks (tag 18) in order.
pub fn parse_rich_content(data: &[u8], unknown_fields: &mut UnknownFields) -> (r: String)
    ensures
        r@ == rich_scan(data@, 0, RichState { text: Seq::empty(), unknown: old(unknown_fields)@ }).text,
        final(unknown_fields)@ == rich_scan(
            data@,
            0,
            RichState { text: Seq::empty(), unknown: old(unknown_fields)@ },
        ).unknown,
{
    let mut parsed_text = String::new();
    let mut k: usize = 0;
    let ghost start = RichState { text: Seq::empty(), unknown: unknown_fields@ };
    while k < data.len()
        invariant
            k <= data@.len(),
            rich_scan(data@, k as int, RichState { text: parsed_text@, unknown: unknown_fields@ })
                == rich_scan(data@, 0, start),
        decreases data@.len() - k,
    {
        let r_tag = data[k];
        let p = k + 1;
        proof {
            lemma_rich_step(data@, k as int, RichState { text: parsed_text@, unknown: unknown_fields@ });
        }
        if r_tag == 18 {
            let (s, e) = block_at(data, p);
            let piece = parse_chunk_block(&data[s..e], unknown_fields);
            parsed_text.append(piece.as_str());
            k = e;
        } else {
            let e = skip_at(data, p, r_tag & 0x07);
            unknown_fields.insert(FieldSection::Rich, r_tag, slice_to_vec(&data[p..e]));
            k = e;
        }
    }
    parsed_text
}

/// One field of a message block at tag position `i`.
pub open spec fn message_step(data: Seq<u8>, i: int, acc: ChatPayloadView) -> (ChatPayloadView, int) {
    let tag = data[i];
    let p = i + 1;
    let s = block_start(data, p);
    let e = block_end(data, p);
    if tag == 26 {
        (
            if s < e {
                ChatPayloadView { message: acc.message + utf8_lossy(span(data, s, e)), ..acc }
            } else {
                acc
            },
            e,
        )
    } else if tag == 58 {
        let rich = rich_scan(span(data, s, e), 0, RichState { text: Seq::empty(), unknown: acc.unknown_fields });
        (ChatPayloadView { message: acc.message + rich.text, unknown_fields: rich.unknown, ..acc }, e)
    } else {
        let k = skip_end(data, p, tag & 0x07);
        (
            ChatPayloadView {
                unknown_fields: acc.unknown_fields.insert((FieldSection::Msg, tag), span(data, p, k)),
                ..acc
            },
            k,
        )
    }
}

pub proof fn lemma_message_step(data: Seq<u8>, i: int, acc: ChatPayloadView)
    requires
        0 <= i < data.len(),
    ensures
        i < message_step(data, i, acc).1 <= data.len(),
{
    lemma_field_bounds(data, i + 1, data[i] & 0x07);
}

/// A message block parsed from tag position `i` on into `acc`.
pub open spec fn message_scan(data: Seq<u8>, i: int, acc: ChatPayloadView) -> ChatPayloadView
    decreases data.len() - i,
{
    if i < 0 || i >= data.len() {
        acc
    } else {
        proof {
            lemma_message_step(data, i, acc);
        }
        message_scan(data, message_step(data, i, acc).1, message_step(data, i, acc).0)
    }
}

/// Parses a message block into `payload`: plain texts (tag 26) and rich
/// content (tag 58) are appended to the message in order.
pub fn parse_message_block(data: &[u8], payload: &mut ChatPayload)
    ensures
        final(payload)@ == message_scan(data@, 0, old(payload)@),
{
    let mut j: usize = 0;
    while j < data.len()
        invariant
            j <= data@.len(),
            message_scan(data@, j as int, payload@) == message_scan(data@, 0, old(payload)@),
        decreases data@.len() - j,
    {
        let sub_tag = data[j];
        let p = j + 1;
        proof {
            lemma_message_step(data@, j as int, payload@);
        }
        if sub_tag == 26 {
            let (s, e) = block_at(data, p);
            if s < e {
                let text_msg = decode_utf8_lossy(&data[s..e]);
                payload.message.append(text_msg.as_str());
            }
            j = e;
        } else if sub_tag == 58 {
            let (s, e) = block_at(data, p);
            let rich_text = parse_rich_content(&data[s..e], &mut payload.unknown_fields);
            payload.message.append(rich_text.as_str());
            j = e;
        } else {
            let e = skip_at(data, p, sub_tag & 0x07);
            payload.unknown_fields.insert(FieldSection::Msg, sub_tag, slice_to_vec(&data[p..e]));
            j = e;
        }
    }
}

/// One field of a chat payload at tag position `i`.
pub open spec fn payload_step(data: Seq<u8>, i: int, acc: ChatPayloadView) -> (ChatPayloadView, int) {
    let tag = data[i];
    let p = i + 1;
    if tag == 8 {
        (ChatPayloadView { session_id: varint_value(data.skip(p)), ..acc }, varint_end(data, p))
    } else if tag == 18 {
        let block = span(data, block_start(data, p), block_end(data, p));
        (ChatPayloadView { sender: sender_scan(block, 0, SenderInfoView::empty()), ..acc }, block_end(data, p))
    } else if tag == 24 {
        (ChatPayloadView { timestamp: varint_value(data.skip(p)), ..acc }, varint_end(data, p))
    } else if tag == 34 {
        let block = span(data, block_start(data, p), block_end(data, p));
        (message_scan(block, 0, acc), block_end(data, p))
    } else {
        let e = skip_end(data, p, tag & 0x07);
        (
            ChatPayloadView {
                unknown_fields: acc.unknown_fields.insert((FieldSection::Chat, tag), span(data, p, e)),
                ..acc
            },
            e,
        )
    }
}

pub proof fn lemma_payload_step(data: Seq<u8>, i: int, acc: ChatPayloadView)
    requires
        0 <= i < data.len(),
    ensures
        i < payload_step(data, i, acc).1 <= data.len(),
{
    lemma_field_bounds(data, i + 1, data[i] & 0x07);
}

/// A chat payload parsed from tag position `i` on into `acc`.
pub open spec fn payload_scan(data: Seq<u8>, i: int, acc: ChatPayloadView) -> ChatPayloadView
    decreases data.len() - i,
{
    if i < 0 || i >= data.len() {
        acc
    } else {
        proof {
            lemma_payload_step(data, i, acc);
        }
        payload_scan(data, payload_step(data, i, acc).1, payload_step(data, i, acc).0)
    }
}

/// The chat payload that `data` encodes.
pub open spec fn chat_payload_of(data: Seq<u8>) -> ChatPayloadView {
    payload_scan(data, 0, ChatPayloadView::empty())
}

/// Parses a chat payload: tag 8 is the session (sequence) id, 18 the sender
/// block, 24 the timestamp, 34 the message block; any other field is recorded
/// as unknown.
pub fn parse_chat_payload(data: &[u8]) -> (r: ChatPayload)
    ensures
        r@ == chat_payload_of(data@),
{
    let mut payload = ChatPayload::default();
    let mut i: usize = 0;
    while i < data.len()
        invariant
            i <= data@.len(),
            payload_scan(data@, i as int, payload@) == chat_payload_of(data@),
        decreases data@.len() - i,
    {
        let tag = data[i];
        let p = i + 1;
        proof {
            lemma_payload_step(data@, i as int, payload@);
        }
        if tag == 8 {
            let (v, n) = varint_at(data, p);
            payload.session_id = v;
            i = n;
        } else if tag == 18 {
            let (s, e) = block_at(data, p);
            payload.sender = parse_sender_info(&data[s..e]);
            i = e;
        } else if tag == 24 {
            let (v, n) = varint_at(data, p);
            payload.timestamp = v;
            i = n;
        } else if tag == 34 {
            let (s, e) = block_at(data, p);
            parse_message_block(&data[s..e], &mut payload);
            i = e;
        } else {
            let e = skip_at(data, p, tag & 0x07);
            payload.unknown_fields.insert(FieldSection::Chat, tag, slice_to_vec(&data[p..e]));
            i = e;
        }
    }
    payload
}

} // verus!

verus! {

/// The name of the channel that a channel id stands for.
pub open spec fn channel_name(id: u64) -> Seq<char> {
    if id == 2 {
        "LOCAL"@
    } else if id == 3 {
        "PARTY"@
    } else if id == 4 {
        "GUILD"@
    } else {
        "WORLD"@
    }
}

/// The name of the channel that a channel id stands for.
pub fn channel_label(id: u64) -> (r: String)
    ensures
        r@ == channel_name(id),
{
    if id == 2 {
        String::from_str("LOCAL")
    } else if id == 3 {
        String::from_str("PARTY")
    } else if id == 4 {
        String::from_str("GUILD")
    } else {
        String::from_str("WORLD")
    }
}

/// The channel names are fixed per id: 2 is the local channel, 3 the party,
/// 4 the guild, and every other id the world channel; the four names differ.
pub proof fn law_channel_names(id: u64)
    ensures
        (channel_name(id) == "LOCAL"@) <==> id == 2,
        (channel_name(id) == "PARTY"@) <==> id == 3,
        (channel_name(id) == "GUILD"@) <==> id == 4,
        (channel_name(id) == "WORLD"@) <==> (id != 2 && id != 3 && id != 4),
{
    reveal_strlit("LOCAL");
    reveal_strlit("PARTY");
    reveal_strlit("GUILD");
    reveal_strlit("WORLD");
    assert("LOCAL"@[0] != "PARTY"@[0] && "LOCAL"@[0] != "GUILD"@[0] && "LOCAL"@[0] != "WORLD"@[0]);
    assert("PARTY"@[0] != "GUILD"@[0] && "PARTY"@[0] != "WORLD"@[0] && "GUILD"@[0] != "WORLD"@[0]);
}

/// A chat packet split into its channel and its chat blocks.
#[derive(Debug)]
pub struct SplitPayload<'a> {
    pub channel: String,
    pub chat_blocks: Vec<(u32, &'a [u8])>,
}

/// The abstract value of a [`SplitPayload`].
pub struct SplitView {
    pub channel: Seq<char>,
    pub blocks: Seq<(u32, Seq<u8>)>,
    pub is_chat: bool,
}

/// The blocks of a split payload as byte sequences.
pub open spec fn blocks_view(blocks: Seq<(u32, &[u8])>) -> Seq<(u32, Seq<u8>)> {
    Seq::new(blocks.len(), |j: int| (blocks[j].0, blocks[j].1@))
}

/// One field of the packet body at tag position `i`.
pub open spec fn split_step(d: Seq<u8>, i: int, acc: SplitView) -> (SplitView, int) {
    let tag = d[i];
    let wire = tag & 0x07;
    let field = (tag >> 3u8) as u32;
    let p = i + 1;
    if wire == 2 {
        let e = block_end(d, p);
        (
            if field == 2 || field == 4 {
                SplitView {
                    blocks: acc.blocks.push((field, span(d, block_start(d, p), e))),
                    is_chat: true,
                    ..acc
                }
            } else {
                acc
            },
            e,
        )
    } else if wire == 0 {
        (
            if field == 1 || field == 2 {
                SplitView { channel: channel_name(varint_value(d.skip(p))), ..acc }
            } else {
                acc
            },
            varint_end(d, p),
        )
    } else {
        (acc, skip_end(d, p, wire))
    }
}

pub proof fn lemma_split_step(d: Seq<u8>, i: int, acc: SplitView)
    requires
        0 <= i < d.len(),
    ensures
        i < split_step(d, i, acc).1 <= d.len(),
{
    lemma_field_bounds(d, i + 1, d[i] & 0x07);
}

/// The packet body parsed from tag position `i` on.
pub open spec fn split_scan(d: Seq<u8>, i: int, acc: SplitView) -> SplitView
    decreases d.len() - i,
{
    if i < 0 || i >= d.len() {
        acc
    } else {
        proof {
            lemma_split_step(d, i, acc);
        }
        split_scan(d, split_step(d, i, acc).1, split_step(d, i, acc).0)
    }
}

/// Where the body of a packet ends: after the 0x0A tag and its length varint,
/// as many bytes as the length claims, capped at the end of the data.
pub open spec fn body_end(data: Seq<u8>) -> int {
    min_int(1 + varint_len(data.skip(1)) + varint_value(data.skip(1)), data.len() as int)
}

/// Stage 1 of chat parsing: `None` for a packet that is not a chat packet
/// (shorter than three bytes, not starting with 0x0A, or without a chat
/// block); otherwise its channel and its chat blocks (fields 2 and 4).
pub open spec fn split_of(data: Seq<u8>) -> Option<SplitView> {
    if data.len() < 3 || data[0] != 0x0A {
        None
    } else {
        let r = split_scan(
            data.take(body_end(data)),
            1 + varint_len(data.skip(1)),
            SplitView { channel: "WORLD"@, blocks: Seq::empty(), is_chat: false },
        );
        if r.is_chat {
            Some(r)
        } else {
            None
        }
    }
}

/// Separates a raw chat packet into its channel and its chat blocks.
pub fn stage1_split<'a>(data: &'a [u8]) -> (r: Option<SplitPayload<'a>>)
    ensures
        match r {
            Some(p) => split_of(data@) matches Some(v) && p.channel@ == v.channel && blocks_view(
                p.chat_blocks@,
            ) == v.blocks,
            None => split_of(data@) is None,
        },
{
    if data.len() < 3 || data[0] != 0x0A {
        return None;
    }
    let (total_len, header_read) = varint_at(data, 1);
    proof {
        lemma_field_bounds(data@, 1, 0);
    }
    let safe_end = clamp_add(header_read, total_len, data.len());
    let d = &data[0..safe_end];
    let mut i = header_read;
    let mut channel = String::from_str("WORLD");
    let mut chat_blocks: Vec<(u32, &'a [u8])> = Vec::new();
    let mut is_valid_chat_packet = false;
    let ghost start = SplitView { channel: "WORLD"@, blocks: Seq::empty(), is_chat: false };
    assert(d@ == data@.take(body_end(data@)));
    assert(blocks_view(chat_blocks@) =~= Seq::empty());
    while i < d.len()
        invariant
            i <= d@.len(),
            d@ == data@.take(body_end(data@)),
            split_scan(
                d@,
                i as int,
                SplitView {
                    channel: channel@,
                    blocks: blocks_view(chat_blocks@),
                    is_chat: is_valid_chat_packet,
                },
            ) == split_scan(d@, 1 + varint_len(data@.skip(1)), start),
        decreases d@.len() - i,
    {
        let tag = d[i];
        let wire_type = tag & 0x07;
        let field_num = (tag >> 3u8) as u32;
        let p = i + 1;
        proof {
            lemma_split_step(
                d@,
                i as int,
                SplitView {
                    channel: channel@,
                    blocks: blocks_view(chat_blocks@),
                    is_chat: is_valid_chat_packet,
                },
            );
        }
        if wire_type == 2 {
            let (s, e) = block_at(d, p);
            if field_num == 2 || field_num == 4 {
                let ghost before = chat_blocks@;
                chat_blocks.push((field_num, &d[s..e]));
                assert(blocks_view(chat_blocks@) =~= blocks_view(before).push((field_num, d@.subrange(s as int, e as int))));
                is_valid_chat_packet = true;
            }
            i = e;
        } else if wire_type == 0 {
            let (val, n) = varint_at(d, p);
            if field_num == 1 || field_num == 2 {
                channel = channel_label(val);
            }
            i = n;
        } else {
            i = skip_at(d, p, wire_type);
        }
    }
    if is_valid_chat_packet {
        Some(SplitPayload { channel, chat_blocks })
    } else {
        None
    }
}

} // verus!

verus! {

/// An event produced from a chat packet of port 5003.
#[derive(Debug)]
pub enum Port5003Event {
    Chat(ChatMessage),
}

/// The chat message that an event carries.
pub open spec fn event_chat(e: Port5003Event) -> ChatMessageView {
    match e {
        Port5003Event::Chat(c) => c@,
    }
}

/// The chat messages that a sequence of events carries.
pub open spec fn events_view(events: Seq<Port5003Event>) -> Seq<ChatMessageView> {
    Seq::new(events.len(), |j: int| event_chat(events[j]))
}

/// The chat message built from one chat block of a packet on `channel`:
/// a full chat payload (field 2), or a short message (field 4) whose text is
/// under tag 0x1A and whose channel id, under tag 0x10, may name the party
/// (3) or the guild (4).
pub open spec fn chat_of_block(channel: Seq<char>, field: u32, block: Seq<u8>) -> ChatMessageView {
    let base = ChatMessageView { channel: channel, ..ChatMessageView::empty() };
    if field == 2 {
        let p = chat_payload_of(block);
        ChatMessageView {
            sequence_id: p.session_id,
            timestamp: p.timestamp,
            message: p.message,
            uid: p.sender.uid,
            nickname: p.sender.nickname,
            class_id: p.sender.class_id,
            level: p.sender.level,
            is_blocked: p.sender.is_blocked,
            unknown_fields: p.unknown_fields.union_prefer_right(p.sender.unknown_fields),
            ..base
        }
    } else if field == 4 {
        match find_string_from(block, 0x1A, 0) {
            Some(msg) => ChatMessageView {
                message: msg,
                channel: match find_int_from(block, 0x10, 0) {
                    Some(id) => if id == 3 {
                        "PARTY"@
                    } else if id == 4 {
                        "GUILD"@
                    } else {
                        channel
                    },
                    None => channel,
                },
                ..base
            },
            None => base,
        }
    } else {
        base
    }
}

/// A message without sender is the user's own: it is named "Me".
pub open spec fn finish_chat(c: ChatMessageView) -> ChatMessageView {
    if c.uid == 0 && c.nickname.len() == 0 {
        ChatMessageView { nickname: "Me"@, ..c }
    } else {
        c
    }
}

/// Whether a chat block becomes an event: it has text and its sender is not
/// blocked.
pub open spec fn emits_chat(c: ChatMessageView) -> bool {
    c.message.len() > 0 && !c.is_blocked
}

/// The chat messages that the chat blocks of a packet on `channel` yield, in
/// order.
pub open spec fn events_of(channel: Seq<char>, blocks: Seq<(u32, Seq<u8>)>) -> Seq<ChatMessageView>
    decreases blocks.len(),
{
    if blocks.len() == 0 {
        Seq::empty()
    } else {
        let prev = events_of(channel, blocks.drop_last());
        let c = chat_of_block(channel, blocks.last().0, blocks.last().1);
        if emits_chat(c) {
            prev.push(finish_chat(c))
        } else {
            prev
        }
    }
}

/// Builds the chat message of one chat block.
fn chat_from_block(channel: &String, field_num: u32, block: &[u8]) -> (r: ChatMessage)
    ensures
        r@ == chat_of_block(channel@, field_num, block@),
{
    let mut chat = ChatMessage::default();
    chat.channel = channel.clone();
    if field_num == 2 {
        let parsed = parse_chat_payload(block);
        chat.sequence_id = parsed.session_id;
        chat.timestamp = parsed.timestamp;
        chat.message = parsed.message;
        chat.uid = parsed.sender.uid;
        chat.nickname = parsed.sender.nickname;
        chat.class_id = parsed.sender.class_id;
        chat.level = parsed.sender.level;
        chat.is_blocked = parsed.sender.is_blocked;
        chat.unknown_fields = parsed.unknown_fields;
        chat.unknown_fields.extend(parsed.sender.unknown_fields);
    } else if field_num == 4 {
        if let Some(msg) = find_string_by_tag(block, 0x1A) {
            chat.message = msg;
            if let Some(chan_id) = find_int_by_tag(block, 0x10) {
                if chan_id == 3 {
                    chat.channel = String::from_str("PARTY");
                } else if chan_id == 4 {
                    chat.channel = String::from_str("GUILD");
                }
            }
        }
    }
    chat
}

/// Stage 2 of chat parsing: one chat event per chat block that has text and
/// a sender who is not blocked.
pub fn stage2_process(raw: SplitPayload<'_>) -> (r: Vec<Port5003Event>)
    ensures
        events_view(r@) == events_of(raw.channel@, blocks_view(raw.chat_blocks@)),
{
    let mut events: Vec<Port5003Event> = Vec::new();
    let mut k: usize = 0;
    let ghost blocks = blocks_view(raw.chat_blocks@);
    while k < raw.chat_blocks.len()
        invariant
            k <= raw.chat_blocks@.len(),
            blocks == blocks_view(raw.chat_blocks@),
            events_view(events@) == events_of(raw.channel@, blocks.take(k as int)),
        decreases raw.chat_blocks@.len() - k,
    {
        let (field_num, block) = raw.chat_blocks[k];
        let mut chat = chat_from_block(&raw.channel, field_num, block);
        let ghost c = chat@;
        assert(blocks.take(k + 1).drop_last() == blocks.take(k as int));
        assert(blocks.take(k + 1).last() == (field_num, block@));
        if chat.message.as_str().is_empty() {
        } else {
            if chat.uid == 0 && chat.nickname.as_str().is_empty() {
                chat.nickname = String::from_str("Me");
            }
            if !chat.is_blocked {
                let ghost before = events@;
                events.push(Port5003Event::Chat(chat));
                assert(events_view(events@) =~= events_view(before).push(finish_chat(c)));
            }
        }
        k = k + 1;
    }
    assert(blocks.take(k as int) == blocks);
    events
}

/// The chat messages that a raw chat packet yields.
pub open spec fn pipeline_events(data: Seq<u8>) -> Seq<ChatMessageView> {
    match split_of(data) {
        Some(v) => events_of(v.channel, v.blocks),
        None => Seq::empty(),
    }
}

/// Parses one raw chat packet into chat events.
pub fn parsing_pipeline(data: &[u8]) -> (r: Vec<Port5003Event>)
    ensures
        events_view(r@) == pipeline_events(data@),
{
    match stage1_split(data) {
        Some(p) => stage2_process(p),
        None => {
            let v: Vec<Port5003Event> = Vec::new();
            assert(events_view(v@) =~= Seq::empty());
            v
        },
    }
}

} // verus!

verus! {

/// Whether a framed message starts at `i` and runs exactly to the end of
/// `payload`: the byte is 0x0A and the complete length varint after it claims
/// exactly the rest of the payload.
pub open spec fn frames_rest(payload: Seq<u8>, i: int) -> bool {
    &&& payload[i] == 0x0A
    &&& varint_len(payload.skip(i + 1)) > 0
    &&& i + 1 + varint_len(payload.skip(i + 1)) + varint_value(payload.skip(i + 1)) == payload.len()
}

/// The first position from `i` on, below `payload.len() - 3`, at which a
/// framed message runs exactly to the end of the payload.
pub open spec fn first_frame_from(payload: Seq<u8>, i: int) -> Option<int>
    decreases payload.len() - i,
{
    if i < 0 || i >= payload.len() - 3 {
        None
    } else if frames_rest(payload, i) {
        Some(i)
    } else {
        first_frame_from(payload, i + 1)
    }
}

/// Where the game data of a TCP payload from `port` starts, if anywhere:
/// payloads under five bytes have none; port 10250 data starts at byte 32
/// (which must be 0x0A); port 5003 data starts at the first 0x0A whose framed
/// message ends exactly at the end of the payload; other ports' data is the
/// whole payload when it starts with 0x0A.
pub open spec fn app_data_start(payload: Seq<u8>, port: u16) -> Option<int> {
    if payload.len() < 5 {
        None
    } else if port == 10250 {
        if payload.len() > 32 && payload[32] == 0x0A {
            Some(32)
        } else {
            None
        }
    } else if port == 5003 {
        first_frame_from(payload, 0)
    } else if payload[0] == 0x0A {
        Some(0)
    } else {
        None
    }
}

proof fn lemma_first_frame(payload: Seq<u8>, i: int)
    requires
        0 <= i,
    ensures
        first_frame_from(payload, i) matches Some(k) ==> i <= k < payload.len() - 3 && frames_rest(
            payload,
            k,
        ),
    decreases payload.len() - i,
{
    if i < payload.len() - 3 && !frames_rest(payload, i) {
        lemma_first_frame(payload, i + 1);
    }
}

/// Strips the application header from a TCP payload of the given port,
/// giving the game data that follows it.
pub fn strip_application_header(payload: &[u8], port: u16) -> (r: Option<&[u8]>)
    ensures
        match app_data_start(payload@, port) {
            Some(k) => r matches Some(s) && s@ == payload@.skip(k),
            None => r is None,
        },
        r matches Some(s) ==> s@.len() >= 1 && s@[0] == 0x0A && s@ == payload@.skip(
            payload@.len() - s@.len(),
        ),
        port == 5003 ==> (r matches Some(s) ==> 1 + varint_len(s@.skip(1)) + varint_value(
            s@.skip(1),
        ) == s@.len()),
{
    if payload.len() < 5 {
        return None;
    }
    if port == 10250 {
        if payload.len() > 32 && payload[32] == 0x0A {
            Some(&payload[32..payload.len()])
        } else {
            None
        }
    } else if port == 5003 {
        let n = payload.len() - 3;
        let mut i: usize = 0;
        while i < n
            invariant
                n == payload@.len() - 3,
                port == 5003,
                payload@.len() >= 5,
                i <= n,
                first_frame_from(payload@, i as int) == first_frame_from(payload@, 0),
            decreases n - i,
        {
            if payload[i] == 0x0A {
                let (msg_len, consumed) = varint_at(payload, i + 1);
                if consumed > i + 1 && msg_len == (payload.len() - consumed) as u64 {
                    let s = &payload[i..payload.len()];
                    proof {
                        assert(frames_rest(payload@, i as int));
                        assert(first_frame_from(payload@, i as int) == Some(i as int));
                        assert(payload@.skip(i + 1).skip(1) == payload@.skip(i + 2));
                        assert(s@.skip(1) == payload@.skip(i + 1));
                    }
                    return Some(s);
                }
            }
            i = i + 1;
        }
        None
    } else {
        if payload[0] == 0x0A {
            Some(payload)
        } else {
            None
        }
    }
}

} // verus!
