//! Per-connection reassembly of chat packets.

use crate::protocol::packet_buffer::{frames, get_timestamp, PacketBuffer};
use crate::protocol::parser::{app_data_start, strip_application_header};
use std::collections::HashMap;
use vstd::prelude::*;

verus! {

broadcast use vstd::std_specs::hash::group_hash_axioms;

/// The number that identifies a TCP stream: its source IPv4 address and
/// source port (six bytes, big-endian) read as one integer.
pub open spec fn stream_id(key: Seq<u8>) -> u64 {
    (key[0] as int * 0x100_0000_0000 + key[1] as int * 0x1_0000_0000 + key[2] as int * 0x100_0000
        + key[3] as int * 0x1_0000 + key[4] as int * 0x100 + key[5] as int) as u64
}

/// Computes [`stream_id`].
pub fn stream_id_of(key: [u8; 6]) -> (r: u64)
    ensures
        r == stream_id(key@),
{
    (key[0] as u64) * 0x100_0000_0000 + (key[1] as u64) * 0x1_0000_0000 + (key[2] as u64)
        * 0x100_0000 + (key[3] as u64) * 0x1_0000 + (key[4] as u64) * 0x100 + (key[5] as u64)
}

/// The bytes of each packet of a list.
pub open spec fn packets_view(packets: Seq<Vec<u8>>) -> Seq<Seq<u8>> {
    Seq::new(packets.len(), |j: int| packets[j]@)
}

/// One packet buffer per TCP stream.
pub struct StreamTracker {
    pub streams: HashMap<u64, PacketBuffer>,
}

/// The bytes of the stream `id` before a segment arrives, and when it last
/// produced a packet.
pub open spec fn stream_state(streams: Map<u64, PacketBuffer>, id: u64) -> (Seq<u8>, u64) {
    if streams.contains_key(id) {
        (streams[id].buffer@, streams[id].last_success_ms)
    } else {
        (Seq::empty(), 0)
    }
}

/// What handling a segment of the stream `id` received at `now` does: the
/// game data of the payload (if its header can be stripped) is added to the
/// stream's buffer, and every complete packet is cut out. When none is, the
/// buffer's timer is what adding the data left it (it is read from the clock
/// when a packet is cut).
pub open spec fn tracker_step(
    old_streams: Map<u64, PacketBuffer>,
    new_streams: Map<u64, PacketBuffer>,
    id: u64,
    payload: Seq<u8>,
    now: u64,
    packets: Seq<Seq<u8>>,
) -> bool {
    match app_data_start(payload, 5003) {
        None => packets.len() == 0 && new_streams == old_streams,
        Some(k) => {
            let added = PacketBuffer::after_add(
                stream_state(old_streams, id).0,
                stream_state(old_streams, id).1,
                payload.skip(k),
                now,
            );
            &&& packets == frames(added).0
            &&& new_streams.contains_key(id)
            &&& new_streams[id].buffer@ == frames(added).1
            &&& packets.len() == 0 ==> new_streams[id].last_success_ms == PacketBuffer::timer_after_add(
                stream_state(old_streams, id).0,
                stream_state(old_streams, id).1,
                now,
            )
            &&& new_streams.remove(id) == old_streams.remove(id)
        },
    }
}

impl StreamTracker {
    /// A tracker with no streams.
    pub fn new() -> (r: Self)
        ensures
            r.streams@ == Map::<u64, PacketBuffer>::empty(),
    {
        StreamTracker { streams: HashMap::new() }
    }

    /// Handles the TCP payload of a segment of the stream `stream_key`
    /// received at `now` (ms): returns the packets it completes.
    pub fn process_bytes_at(&mut self, stream_key: [u8; 6], payload: &[u8], now: u64) -> (r: Vec<
        Vec<u8>,
    >)
        ensures
            tracker_step(
                old(self).streams@,
                final(self).streams@,
                stream_id(stream_key@),
                payload@,
                now,
                packets_view(r@),
            ),
    {
        let mut assembled_packets: Vec<Vec<u8>> = Vec::new();
        if let Some(game_data) = strip_application_header(payload, 5003) {
            let id = stream_id_of(stream_key);
            let mut p_buf = match self.streams.remove(&id) {
                Some(b) => b,
                None => PacketBuffer::new(),
            };
            p_buf.add_at(game_data, now);
            let ghost added = p_buf.buffer@;
            assembled_packets = p_buf.drain_packets();
            self.streams.insert(id, p_buf);
            proof {
                assert(packets_view(assembled_packets@) =~= frames(
                    added,
                ).0);
                assert(self.streams@.remove(id) =~= old(self).streams@.remove(id));
            }
        } else {
            assert(packets_view(assembled_packets@) =~= Seq::<
                Seq<u8>,
            >::empty());
        }
        assembled_packets
    }

    /// Handles the TCP payload of a segment of the stream `stream_key`, with
    /// the clock read now: returns the packets it completes.
    pub fn process_bytes(&mut self, stream_key: [u8; 6], payload: &[u8]) -> (r: Vec<Vec<u8>>)
        ensures
            exists|now: u64|
                #[trigger] tracker_step(
                    old(self).streams@,
                    final(self).streams@,
                    stream_id(stream_key@),
                    payload@,
                    now,
                    packets_view(r@),
                ),
    {
        let now = get_timestamp();
        self.process_bytes_at(stream_key, payload, now)
    }
}

/// Bytes of one stream never touch another stream's buffer: after a step
/// for `id`, every other stream is present exactly when it was, with the
/// same buffer.
pub proof fn law_other_streams_untouched(
    old_streams: Map<u64, PacketBuffer>,
    new_streams: Map<u64, PacketBuffer>,
    id: u64,
    payload: Seq<u8>,
    now: u64,
    packets: Seq<Seq<u8>>,
    other: u64,
)
    requires
        tracker_step(old_streams, new_streams, id, payload, now, packets),
        other != id,
    ensures
        new_streams.contains_key(other) == old_streams.contains_key(other),
        new_streams.contains_key(other) ==> new_streams[other] == old_streams[other],
{
    if app_data_start(payload, 5003) is Some {
        assert(new_streams.remove(id).contains_key(other) == new_streams.contains_key(other));
        assert(old_streams.remove(id).contains_key(other) == old_streams.contains_key(other));
        if new_streams.contains_key(other) {
            assert(new_streams.remove(id)[other] == new_streams[other]);
            assert(old_streams.remove(id)[other] == old_streams[other]);
        }
    }
}

} // verus!
