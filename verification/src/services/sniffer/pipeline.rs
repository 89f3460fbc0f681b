//! The chat pipeline: raw IP packets in, chat actions out.

use crate::protocol::packet_buffer::get_timestamp;
use crate::protocol::parser::{event_chat, parsing_pipeline, pipeline_events, Port5003Event};
use crate::protocol::types::{ChatMessage, ChatMessageView};
use crate::services::sniffer::message_processor::{
    committed, process_action, processed_message, MessageProcessor, ProcessAction, DEDUP_CACHE_LIMIT,
};
use crate::services::sniffer::stream_tracker::{packets_view, stream_id, tracker_step, StreamTracker};
use std::collections::HashMap;
use vstd::prelude::*;

verus! {

broadcast use vstd::std_specs::hash::group_hash_axioms;

/// What `etherparse::PacketHeaders::from_ip_slice` finds in an IP packet:
/// `None` when it fails; otherwise the TCP source port (if the transport is
/// TCP), the IPv4 source address (if the network layer is IPv4) and the
/// payload of the last layer it parsed.
pub uninterp spec fn ip_packet_fields(packet: Seq<u8>) -> Option<(Option<u16>, Option<Seq<u8>>, Seq<u8>)>;

/// The view of an optional IPv4 address.
pub open spec fn opt_addr(a: Option<[u8; 4]>) -> Option<Seq<u8>> {
    match a {
        Some(x) => Some(x@),
        None => None,
    }
}

/// Decodes the headers of an IP packet.
///
/// Trusted: calls `etherparse::PacketHeaders::from_ip_slice` and picks the
/// TCP source port, the IPv4 source address and `payload.slice()`; the result
/// is named `ip_packet_fields`.
#[verifier::external_body]
fn decode_ip_packet<'a>(packet: &'a [u8]) -> (r: Option<(Option<u16>, Option<[u8; 4]>, &'a [u8])>)
    ensures
        match r {
            None => ip_packet_fields(packet@) is None,
            Some(f) => ip_packet_fields(packet@) == Some((f.0, opt_addr(f.1), f.2@)),
        },
{
    let h = etherparse::PacketHeaders::from_ip_slice(packet).ok()?;
    let port = match &h.transport {
        Some(etherparse::TransportHeader::Tcp(tcp)) => Some(tcp.source_port),
        _ => None,
    };
    let source = match &h.net {
        Some(etherparse::NetHeaders::Ipv4(ipv4, _)) => Some(ipv4.source),
        _ => None,
    };
    Some((port, source, h.payload.slice()))
}

} // verus!

verus! {

/// A side effect that the pipeline asks its caller to perform.
#[derive(Debug)]
pub enum PipelineAction {
    UpdateBlockedMessage(ChatMessage),
    EmitNewMessage(ChatMessage),
}

/// An action as (whether it emits a new message, the message).
pub open spec fn action_view(a: PipelineAction) -> (bool, ChatMessageView) {
    match a {
        PipelineAction::UpdateBlockedMessage(c) => (false, c@),
        PipelineAction::EmitNewMessage(c) => (true, c@),
    }
}

/// The actions of a list, as (emits, message) pairs.
pub open spec fn actions_view(actions: Seq<PipelineAction>) -> Seq<(bool, ChatMessageView)> {
    Seq::new(actions.len(), |j: int| action_view(actions[j]))
}

/// The chat messages that a sequence of packets yields, packet by packet.
pub open spec fn packet_chats(packets: Seq<Seq<u8>>) -> Seq<ChatMessageView>
    decreases packets.len(),
{
    if packets.len() == 0 {
        Seq::empty()
    } else {
        packet_chats(packets.drop_last()) + pipeline_events(packets.last())
    }
}

/// Processing a sequence of chat messages in order with the ids already seen
/// in `cache`: the actions and the cache afterwards. Duplicates are dropped,
/// blocked duplicates become updates, new messages are emitted and registered.
pub open spec fn handle_chats(cache: Set<u64>, chats: Seq<ChatMessageView>, blocked: Set<u64>) -> (
    Seq<(bool, ChatMessageView)>,
    Set<u64>,
)
    decreases chats.len(),
{
    if chats.len() == 0 {
        (Seq::empty(), cache)
    } else {
        let prev = handle_chats(cache, chats.drop_last(), blocked);
        let m = processed_message(chats.last(), blocked);
        match process_action(prev.1, m) {
            ProcessAction::IgnoreDuplicate => prev,
            ProcessAction::UpdateBlockedMessage => (prev.0.push((false, m)), prev.1),
            ProcessAction::EmitNewMessage => (prev.0.push((true, m)), committed(prev.1, m.pid)),
        }
    }
}

/// The key of a TCP stream: its IPv4 source address then its source port,
/// big-endian.
pub open spec fn stream_key_of(addr: Seq<u8>, port: u16) -> Seq<u8> {
    addr + seq![(port / 256) as u8, (port % 256) as u8]
}

/// The IPv4 source address and the payload of a packet that is a non-empty
/// TCP segment from port 5003 (the game's chat server) over IPv4.
pub open spec fn chat_segment(packet: Seq<u8>) -> Option<(Seq<u8>, Seq<u8>)> {
    match ip_packet_fields(packet) {
        Some(fields) => {
            let (port, addr, payload) = fields;
            if port == Some(5003u16) && payload.len() > 0 {
                match addr {
                    Some(a) => Some((a, payload)),
                    None => None,
                }
            } else {
                None
            }
        },
        None => None,
    }
}

/// Whether a packet feeds the traffic watchdog: it decodes with a TCP source
/// port of 5003 and a non-empty payload (over IPv4 or not).
pub open spec fn feeds_watchdog(packet: Seq<u8>) -> bool {
    match ip_packet_fields(packet) {
        Some(fields) => fields.0 == Some(5003u16) && fields.2.len() > 0,
        None => false,
    }
}

/// Whether [`ChatPipeline::feed_network_packet`] feeds the watchdog for
/// `packet`: it calls its `feed_watchdog` argument exactly once when this
/// holds, and never otherwise.
pub fn feeds_watchdog_of(packet: &[u8]) -> (r: bool)
    ensures
        r == feeds_watchdog(packet@),
{
    match decode_ip_packet(packet) {
        Some((Some(port), _, payload)) => port == 5003 && payload.len() > 0,
        _ => false,
    }
}

/// Turns raw IP packets into chat actions.
pub struct ChatPipeline {
    pub tracker: StreamTracker,
    pub processor: MessageProcessor,
}

/// Moves the chat messages out of a list of events.
fn chats_of_events(events: Vec<Port5003Event>) -> (r: Vec<ChatMessage>)
    ensures
        r@.len() == events@.len(),
        forall|j: int| 0 <= j < r@.len() ==> #[trigger] r@[j]@ == event_chat(events@[j]),
{
    let mut events = events;
    let ghost orig = events@;
    let mut out: Vec<ChatMessage> = Vec::new();
    while events.len() > 0
        invariant
            out@.len() + events@.len() == orig.len(),
            events@ == orig.skip(out@.len() as int),
            forall|j: int| 0 <= j < out@.len() ==> #[trigger] out@[j]@ == event_chat(orig[j]),
        decreases events@.len(),
    {
        let e = events.remove(0);
        let Port5003Event::Chat(c) = e;
        out.push(c);
    }
    out
}

impl ChatPipeline {
    /// A pipeline with no streams and no seen messages.
    pub fn new() -> (r: Self)
        ensures
            r.tracker.streams@ == Map::<u64, crate::protocol::packet_buffer::PacketBuffer>::empty(),
            r.processor.dedup_cache@ == Set::<u64>::empty(),
    {
        ChatPipeline { tracker: StreamTracker::new(), processor: MessageProcessor::new() }
    }

    /// Processes chat messages in order against the processor.
    fn handle(&mut self, chats: Vec<ChatMessage>, blocked_users: &HashMap<u64, String>) -> (r: Vec<
        PipelineAction,
    >)
        ensures
            (actions_view(r@), final(self).processor.dedup_cache@) == handle_chats(
                old(self).processor.dedup_cache@,
                Seq::new(chats@.len(), |j: int| chats@[j]@),
                blocked_users@.dom(),
            ),
            final(self).tracker == old(self).tracker,
    {
        let ghost all = Seq::new(chats@.len(), |j: int| chats@[j]@);
        let mut chats = chats;
        let mut actions: Vec<PipelineAction> = Vec::new();
        let mut k: usize = 0;
        let n = chats.len();
        while chats.len() > 0
            invariant
                k + chats@.len() == n,
                n == all.len(),
                forall|j: int| 0 <= j < chats@.len() ==> #[trigger] chats@[j]@ == all[k + j],
                (actions_view(actions@), self.processor.dedup_cache@) == handle_chats(
                    old(self).processor.dedup_cache@,
                    all.take(k as int),
                    blocked_users@.dom(),
                ),
                self.tracker == old(self).tracker,
            decreases chats@.len(),
        {
            let mut chat = chats.remove(0);
            assert(chat@ == all[k as int]);
            assert(all.take(k + 1).drop_last() == all.take(k as int));
            let ghost prev_actions = actions@;
            match self.processor.process(&mut chat, blocked_users) {
                ProcessAction::IgnoreDuplicate => {},
                ProcessAction::UpdateBlockedMessage => {
                    actions.push(PipelineAction::UpdateBlockedMessage(chat));
                    assert(actions_view(actions@) =~= actions_view(prev_actions).push(
                        action_view(actions@.last()),
                    ));
                },
                ProcessAction::EmitNewMessage => {
                    self.processor.commit_new_message(&chat);
                    actions.push(PipelineAction::EmitNewMessage(chat));
                    assert(actions_view(actions@) =~= actions_view(prev_actions).push(
                        action_view(actions@.last()),
                    ));
                },
            }
            k = k + 1;
        }
        assert(all.take(k as int) == all);
        actions
    }
}

} // verus!

verus! {

/// The views of a list of chat messages.
pub open spec fn chats_view(chats: Seq<ChatMessage>) -> Seq<ChatMessageView> {
    Seq::new(chats.len(), |j: int| chats[j]@)
}

/// Parses every packet and collects its chat messages, in order.
fn chats_of_packets(packets: &Vec<Vec<u8>>) -> (r: Vec<ChatMessage>)
    ensures
        chats_view(r@) == packet_chats(packets_view(packets@)),
{
    let mut out: Vec<ChatMessage> = Vec::new();
    let mut k: usize = 0;
    while k < packets.len()
        invariant
            k <= packets@.len(),
            chats_view(out@) == packet_chats(packets_view(packets@).take(k as int)),
        decreases packets@.len() - k,
    {
        let events = parsing_pipeline(packets[k].as_slice());
        let mut more = chats_of_events(events);
        let ghost prev = out@;
        let ghost added = more@;
        out.append(&mut more);
        proof {
            let ps = packets_view(packets@);
            assert(ps.take(k + 1).drop_last() == ps.take(k as int));
            assert(ps.take(k + 1).last() == packets@[k as int]@);
            assert(chats_view(out@) =~= chats_view(prev) + chats_view(added));
            assert(chats_view(added) =~= pipeline_events(packets@[k as int]@));
        }
        k = k + 1;
    }
    assert(packets_view(packets@).take(k as int) == packets_view(packets@));
    out
}

/// What feeding the payload of a port-5003 segment from `source`, received
/// at `now`, does: the tracker takes it into the buffer of its stream and
/// cuts `packets` out, and their chat messages are processed in order into
/// `actions`.
pub open spec fn segment_effect(
    old_pipeline: ChatPipeline,
    new_pipeline: ChatPipeline,
    source: Seq<u8>,
    payload: Seq<u8>,
    now: u64,
    blocked: Set<u64>,
    actions: Seq<(bool, ChatMessageView)>,
    packets: Seq<Seq<u8>>,
) -> bool {
    &&& tracker_step(
        old_pipeline.tracker.streams@,
        new_pipeline.tracker.streams@,
        stream_id(stream_key_of(source, 5003)),
        payload,
        now,
        packets,
    )
    &&& (actions, new_pipeline.processor.dedup_cache@) == handle_chats(
        old_pipeline.processor.dedup_cache@,
        packet_chats(packets),
        blocked,
    )
}

/// What feeding one IP packet does to the pipeline, with `actions` the
/// resulting actions: only a non-empty TCP segment from port 5003 over IPv4
/// has an effect. Its payload goes to the buffer of its stream; the chat
/// messages of the packets that it completes are processed in order.
pub open spec fn feed_effect(
    old_pipeline: ChatPipeline,
    new_pipeline: ChatPipeline,
    packet: Seq<u8>,
    blocked: Set<u64>,
    actions: Seq<(bool, ChatMessageView)>,
) -> bool {
    match chat_segment(packet) {
        Some(seg) => exists|now: u64, packets: Seq<Seq<u8>>|
            #[trigger] segment_effect(old_pipeline, new_pipeline, seg.0, seg.1, now, blocked, actions, packets),
        None => {
            &&& actions.len() == 0
            &&& new_pipeline.tracker.streams@ == old_pipeline.tracker.streams@
            &&& new_pipeline.processor.dedup_cache@ == old_pipeline.processor.dedup_cache@
        },
    }
}

impl ChatPipeline {
    /// Takes one raw IP packet and returns the chat actions it leads to.
    /// `feed_watchdog` is called once exactly when [`feeds_watchdog`] holds
    /// of the packet (a non-empty TCP segment from port 5003); a packet that
    /// does not feed it changes nothing and leads to no action.
    pub fn feed_network_packet<F: FnMut()>(
        &mut self,
        packet: &[u8],
        blocked_users: &HashMap<u64, String>,
        feed_watchdog: F,
    ) -> (r: Vec<PipelineAction>)
        requires
            call_requires(feed_watchdog, ()),
        ensures
            feed_effect(*old(self), *final(self), packet@, blocked_users@.dom(), actions_view(r@)),
            chat_segment(packet@) is Some ==> feeds_watchdog(packet@),
            !feeds_watchdog(packet@) ==> r@.len() == 0 && final(self).tracker.streams@ == old(self).tracker.streams@
                && final(self).processor.dedup_cache@ == old(self).processor.dedup_cache@,
    {
        let mut feed_watchdog = feed_watchdog;
        let actions: Vec<PipelineAction> = Vec::new();
        let fields = decode_ip_packet(packet);
        let (port, source, payload) = match fields {
            Some(f) => f,
            None => {
                assert(actions_view(actions@) =~= Seq::empty());
                return actions;
            },
        };
        let port = match port {
            Some(p) => p,
            None => {
                assert(actions_view(actions@) =~= Seq::empty());
                return actions;
            },
        };
        if port != 5003 || payload.len() == 0 {
            assert(actions_view(actions@) =~= Seq::empty());
            return actions;
        }
        assert(feeds_watchdog(packet@));
        feed_watchdog();
        let addr = match source {
            Some(a) => a,
            None => {
                assert(actions_view(actions@) =~= Seq::empty());
                return actions;
            },
        };
        let now = get_timestamp();
        let r = self.feed_chat_segment(addr, payload, now, blocked_users);
        proof {
            assert(ip_packet_fields(packet@) == Some((Some(port), Some(addr@), payload@)));
            assert(port == 5003u16);
            assert(chat_segment(packet@) == Some((addr@, payload@)));
            let seg = chat_segment(packet@)->0;
            assert(seg.0 == addr@);
            assert(seg.1 == payload@);
            let packets = choose|packets: Seq<Seq<u8>>| segment_effect(*old(self), *self, addr@, payload@, now, blocked_users@.dom(), actions_view(r@), packets);
            assert(segment_effect(*old(self), *self, seg.0, seg.1, now, blocked_users@.dom(), actions_view(r@), packets));
        }
        r
    }

    /// Takes the payload of a TCP segment that the IPv4 address `source`
    /// sent from port 5003, received at `now` (ms), and returns the chat
    /// actions it leads to.
    pub fn feed_chat_segment(
        &mut self,
        source: [u8; 4],
        payload: &[u8],
        now: u64,
        blocked_users: &HashMap<u64, String>,
    ) -> (r: Vec<PipelineAction>)
        ensures
            exists|packets: Seq<Seq<u8>>| #[trigger] segment_effect(*old(self), *final(self), source@, payload@, now, blocked_users@.dom(), actions_view(r@), packets),
    {
        let port: u16 = 5003;
        let stream_key: [u8; 6] = [
            source[0],
            source[1],
            source[2],
            source[3],
            (port / 256) as u8,
            (port % 256) as u8,
        ];
        let ghost old_streams = self.tracker.streams@;
        let assembled = self.tracker.process_bytes_at(stream_key, payload, now);
        let chats = chats_of_packets(&assembled);
        let ghost chat_views = chats@;
        let r = self.handle(chats, blocked_users);
        proof {
            assert(stream_key@ =~= stream_key_of(source@, port));
            assert(Seq::new(chat_views.len(), |j: int| chat_views[j]@) == chats_view(chat_views));
            let pk = packets_view(assembled@);
            assert(segment_effect(*old(self), *self, source@, payload@, now, blocked_users@.dom(), actions_view(r@), pk));
        }
        r
    }
}

} // verus!

verus! {

/// The ids of the messages that a list of actions emits as new, in order.
pub open spec fn emitted_pids(actions: Seq<(bool, ChatMessageView)>) -> Seq<u64>
    decreases actions.len(),
{
    if actions.len() == 0 {
        Seq::empty()
    } else {
        let prev = emitted_pids(actions.drop_last());
        if actions.last().0 {
            prev.push(actions.last().1.pid)
        } else {
            prev
        }
    }
}

proof fn lemma_emitted_count(cache: Set<u64>, chats: Seq<ChatMessageView>, blocked: Set<u64>)
    ensures
        emitted_pids(handle_chats(cache, chats, blocked).0).len() <= chats.len(),
    decreases chats.len(),
{
    if chats.len() > 0 {
        lemma_emitted_count(cache, chats.drop_last(), blocked);
        let prev = handle_chats(cache, chats.drop_last(), blocked);
        let now = handle_chats(cache, chats, blocked);
        if now.0 != prev.0 {
            assert(now.0.drop_last() == prev.0);
        }
    }
}

/// No message is emitted twice while the duplicate cache has room: when
/// the ids already seen and the ids emitted together stay within the
/// cache's limit (so it is never emptied), the emitted ids are pairwise
/// distinct, none was seen before, and the cache afterwards holds exactly
/// the ids seen before and those emitted, so a later call never emits them
/// again.
pub proof fn law_emitted_once(cache: Set<u64>, chats: Seq<ChatMessageView>, blocked: Set<u64>)
    requires
        cache.finite(),
        cache.len() + emitted_pids(handle_chats(cache, chats, blocked).0).len() <= DEDUP_CACHE_LIMIT,
    ensures
        ({
            let (actions, after) = handle_chats(cache, chats, blocked);
            let ids = emitted_pids(actions);
            &&& ids.no_duplicates()
            &&& forall|i: int| 0 <= i < ids.len() ==> !cache.contains(#[trigger] ids[i])
            &&& after.finite()
            &&& after.len() == cache.len() + ids.len()
            &&& forall|x: u64| #[trigger] after.contains(x) <==> (cache.contains(x) || ids.contains(x))
        }),
    decreases chats.len(),
{
    if chats.len() > 0 {
        let prev = handle_chats(cache, chats.drop_last(), blocked);
        let now = handle_chats(cache, chats, blocked);
        let ids = emitted_pids(prev.0);
        let m = processed_message(chats.last(), blocked);
        match process_action(prev.1, m) {
            ProcessAction::EmitNewMessage => {
                assert(now.0 == prev.0.push((true, m)));
                assert(now.0.drop_last() == prev.0);
                assert(emitted_pids(now.0) == ids.push(m.pid));
                law_emitted_once(cache, chats.drop_last(), blocked);
                assert(!prev.1.contains(m.pid));
                assert(prev.1.insert(m.pid).len() == prev.1.len() + 1);
                assert(committed(prev.1, m.pid) == prev.1.insert(m.pid));
                assert(!ids.contains(m.pid));
                let ids2 = ids.push(m.pid);
                assert(now.1 == prev.1.insert(m.pid));
                assert forall|x: u64| #[trigger] now.1.contains(x) <==> (cache.contains(x) || ids2.contains(x)) by {
                    assert(ids2[ids.len() as int] == m.pid);
                    assert(prev.1.contains(x) <==> (cache.contains(x) || ids.contains(x)));
                    if ids2.contains(x) && x != m.pid {
                        let k = choose|k: int| 0 <= k < ids2.len() && ids2[k] == x;
                        assert(ids[k] == x);
                    }
                    if ids.contains(x) {
                        let k = choose|k: int| 0 <= k < ids.len() && ids[k] == x;
                        assert(ids2[k] == x);
                    }
                }
            },
            ProcessAction::UpdateBlockedMessage => {
                assert(now.0.drop_last() == prev.0);
                assert(emitted_pids(now.0) == ids);
                law_emitted_once(cache, chats.drop_last(), blocked);
            },
            ProcessAction::IgnoreDuplicate => {
                law_emitted_once(cache, chats.drop_last(), blocked);
            },
        }
    }
}

/// The number of messages in all the batches.
pub open spec fn total_messages(batches: Seq<Seq<ChatMessageView>>) -> nat
    decreases batches.len(),
{
    if batches.len() == 0 {
        0
    } else {
        total_messages(batches.drop_last()) + batches.last().len()
    }
}

/// Handling the chat messages of successive feeds in turn, the `j`-th with
/// the blocked senders `blocked[j]`, each with the cache the one before left:
/// the ids emitted over all of them, in order, and the cache at the end.
pub open spec fn handled_in_turn(
    cache: Set<u64>,
    batches: Seq<Seq<ChatMessageView>>,
    blocked: Seq<Set<u64>>,
) -> (Seq<u64>, Set<u64>)
    decreases batches.len(),
{
    if batches.len() == 0 {
        (Seq::empty(), cache)
    } else {
        let prev = handled_in_turn(cache, batches.drop_last(), blocked);
        let step = handle_chats(prev.1, batches.last(), blocked[batches.len() - 1]);
        (prev.0 + emitted_pids(step.0), step.1)
    }
}

/// No message is emitted twice over any sequence of feeds: while the ids
/// seen before and all the messages handled stay within the duplicate
/// cache's limit (so it is never emptied), the ids emitted over the whole
/// sequence are pairwise distinct and none was seen before; the cache at the
/// end holds exactly the ids seen before and those emitted.
pub proof fn law_emitted_once_in_any_sequence(
    cache: Set<u64>,
    batches: Seq<Seq<ChatMessageView>>,
    blocked: Seq<Set<u64>>,
)
    requires
        cache.finite(),
        cache.len() + total_messages(batches) <= DEDUP_CACHE_LIMIT,
    ensures
        ({
            let (ids, after) = handled_in_turn(cache, batches, blocked);
            &&& ids.no_duplicates()
            &&& forall|i: int| 0 <= i < ids.len() ==> !cache.contains(#[trigger] ids[i])
            &&& after.finite()
            &&& after.len() <= cache.len() + total_messages(batches)
            &&& forall|x: u64| #[trigger] after.contains(x) <==> (cache.contains(x) || ids.contains(x))
        }),
    decreases batches.len(),
{
    if batches.len() > 0 {
        let b0 = batches.drop_last();
        law_emitted_once_in_any_sequence(cache, b0, blocked);
        let prev = handled_in_turn(cache, b0, blocked);
        let last = batches.last();
        let bl = blocked[batches.len() - 1];
        lemma_emitted_count(prev.1, last, bl);
        law_emitted_once(prev.1, last, bl);
        let step = handle_chats(prev.1, last, bl);
        let ids1 = prev.0;
        let ids2 = emitted_pids(step.0);
        let all = ids1 + ids2;
        assert(handled_in_turn(cache, batches, blocked) == (all, step.1));
        assert forall|i: int, j: int| 0 <= i < j < all.len() implies all[i] != all[j] by {
            if j >= ids1.len() && i < ids1.len() {
                assert(ids1.contains(ids1[i]));
                assert(prev.1.contains(ids1[i]));
                assert(all[j] == ids2[j - ids1.len()]);
            } else if i >= ids1.len() {
                assert(all[i] == ids2[i - ids1.len()]);
                assert(all[j] == ids2[j - ids1.len()]);
            }
        }
        assert forall|i: int| 0 <= i < all.len() implies !cache.contains(#[trigger] all[i]) by {
            if i >= ids1.len() {
                assert(all[i] == ids2[i - ids1.len()]);
                if cache.contains(all[i]) {
                    assert(prev.1.contains(all[i]));
                }
            }
        }
        assert forall|x: u64| #[trigger] step.1.contains(x) <==> (cache.contains(x) || all.contains(x)) by {
            assert(step.1.contains(x) <==> (prev.1.contains(x) || ids2.contains(x)));
            assert(prev.1.contains(x) <==> (cache.contains(x) || ids1.contains(x)));
            if ids1.contains(x) {
                let k = choose|k: int| 0 <= k < ids1.len() && ids1[k] == x;
                assert(all[k] == x);
            }
            if ids2.contains(x) {
                let k = choose|k: int| 0 <= k < ids2.len() && ids2[k] == x;
                assert(all[ids1.len() + k] == x);
            }
            if all.contains(x) {
                let k = choose|k: int| 0 <= k < all.len() && all[k] == x;
                if k < ids1.len() {
                    assert(ids1[k] == x);
                } else {
                    assert(ids2[k - ids1.len()] == x);
                }
            }
        }
    }
}

/// The ids that successive lists of actions emit as new, in order.
pub open spec fn all_emitted(actions: Seq<Seq<(bool, ChatMessageView)>>) -> Seq<u64>
    decreases actions.len(),
{
    if actions.len() == 0 {
        Seq::empty()
    } else {
        all_emitted(actions.drop_last()) + emitted_pids(actions.last())
    }
}

proof fn lemma_join_distinct(cache: Set<u64>, mid: Set<u64>, ids1: Seq<u64>, ids2: Seq<u64>)
    requires
        ids1.no_duplicates(),
        ids2.no_duplicates(),
        forall|i: int| 0 <= i < ids1.len() ==> !cache.contains(#[trigger] ids1[i]),
        forall|i: int| 0 <= i < ids2.len() ==> !mid.contains(#[trigger] ids2[i]),
        forall|x: u64| #[trigger] mid.contains(x) <==> (cache.contains(x) || ids1.contains(x)),
    ensures
        (ids1 + ids2).no_duplicates(),
        forall|i: int| 0 <= i < (ids1 + ids2).len() ==> !cache.contains(#[trigger] (ids1 + ids2)[i]),
        forall|x: u64| (cache.contains(x) || (ids1 + ids2).contains(x)) <==> (#[trigger] mid.contains(x) || ids2.contains(x)),
{
    let all = ids1 + ids2;
    assert forall|i: int, j: int| 0 <= i < j < all.len() implies all[i] != all[j] by {
        if j >= ids1.len() && i < ids1.len() {
            assert(ids1.contains(ids1[i]));
            assert(mid.contains(ids1[i]));
            assert(all[j] == ids2[j - ids1.len()]);
        } else if i >= ids1.len() {
            assert(all[i] == ids2[i - ids1.len()]);
            assert(all[j] == ids2[j - ids1.len()]);
        }
    }
    assert forall|i: int| 0 <= i < all.len() implies !cache.contains(#[trigger] all[i]) by {
        if i >= ids1.len() {
            assert(all[i] == ids2[i - ids1.len()]);
            if cache.contains(all[i]) {
                assert(mid.contains(all[i]));
            }
        }
    }
    assert forall|x: u64| (cache.contains(x) || all.contains(x)) <==> (#[trigger] mid.contains(x) || ids2.contains(x)) by {
        if ids1.contains(x) {
            let k = choose|k: int| 0 <= k < ids1.len() && ids1[k] == x;
            assert(all[k] == x);
        }
        if ids2.contains(x) {
            let k = choose|k: int| 0 <= k < ids2.len() && ids2[k] == x;
            assert(all[ids1.len() + k] == x);
        }
        if all.contains(x) {
            let k = choose|k: int| 0 <= k < all.len() && all[k] == x;
            if k < ids1.len() {
                assert(ids1[k] == x);
            } else {
                assert(ids2[k - ids1.len()] == x);
            }
        }
    }
}

/// No message is emitted twice over any sequence of calls of
/// [`ChatPipeline::feed_network_packet`]: when `pipes[i + 1]` and
/// `actions[i]` are what feeding `packets[i]` (with the blocked senders
/// `blocked[i]`) does to `pipes[i]`, as that function's contract states,
/// and the ids in the first cache and all the ids emitted stay within the
/// duplicate cache's limit (so it is never emptied), then the ids of all
/// the new messages emitted over the whole sequence are pairwise distinct,
/// none was in the first cache, and the last cache holds exactly the first
/// cache's ids and those emitted.
pub proof fn law_feeds_emit_once(
    pipes: Seq<ChatPipeline>,
    packets: Seq<Seq<u8>>,
    blocked: Seq<Set<u64>>,
    actions: Seq<Seq<(bool, ChatMessageView)>>,
)
    requires
        pipes.len() == packets.len() + 1,
        actions.len() == packets.len(),
        blocked.len() == packets.len(),
        forall|i: int|
            0 <= i < packets.len() ==> #[trigger] feed_effect(pipes[i], pipes[i + 1], packets[i], blocked[i], actions[i]),
        pipes[0].processor.dedup_cache@.finite(),
        pipes[0].processor.dedup_cache@.len() + all_emitted(actions).len() <= DEDUP_CACHE_LIMIT,
    ensures
        ({
            let ids = all_emitted(actions);
            let first = pipes[0].processor.dedup_cache@;
            let last = pipes[packets.len() as int].processor.dedup_cache@;
            &&& ids.no_duplicates()
            &&& forall|i: int| 0 <= i < ids.len() ==> !first.contains(#[trigger] ids[i])
            &&& last.finite()
            &&& last.len() == first.len() + ids.len()
            &&& forall|x: u64| #[trigger] last.contains(x) <==> (first.contains(x) || ids.contains(x))
        }),
    decreases packets.len(),
{
    let n = packets.len() as int;
    let first = pipes[0].processor.dedup_cache@;
    if n == 0 {
        assert(all_emitted(actions) =~= Seq::<u64>::empty());
    } else {
        let p0 = pipes.drop_last();
        let k0 = packets.drop_last();
        let b0 = blocked.drop_last();
        let a0 = actions.drop_last();
        assert forall|i: int| 0 <= i < k0.len() implies #[trigger] feed_effect(p0[i], p0[i + 1], k0[i], b0[i], a0[i]) by {
            assert(feed_effect(pipes[i], pipes[i + 1], packets[i], blocked[i], actions[i]));
        }
        assert(p0[0] == pipes[0]);
        law_feeds_emit_once(p0, k0, b0, a0);
        let ids1 = all_emitted(a0);
        let mid = pipes[n - 1].processor.dedup_cache@;
        assert(p0[n - 1] == pipes[n - 1]);
        let act = actions[n - 1];
        assert(actions.last() == act);
        assert(all_emitted(actions) == ids1 + emitted_pids(act));
        assert(feed_effect(pipes[n - 1], pipes[n], packets[n - 1], blocked[n - 1], act));
        let last = pipes[n].processor.dedup_cache@;
        match chat_segment(packets[n - 1]) {
            Some(seg) => {
                let (now, pk) = choose|now: u64, pk: Seq<Seq<u8>>|
                    #[trigger] segment_effect(pipes[n - 1], pipes[n], seg.0, seg.1, now, blocked[n - 1], act, pk);
                let chats = packet_chats(pk);
                assert((act, last) == handle_chats(mid, chats, blocked[n - 1]));
                law_emitted_once(mid, chats, blocked[n - 1]);
                lemma_join_distinct(first, mid, ids1, emitted_pids(act));
            },
            None => {
                assert(act.len() == 0);
                assert(emitted_pids(act) =~= Seq::<u64>::empty());
                assert(ids1 + emitted_pids(act) =~= ids1);
                assert(last =~= mid);
            },
        }
    }
}

} // verus!
