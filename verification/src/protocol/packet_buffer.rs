//! Reassembly of framed Protobuf packets from a TCP byte stream.

use crate::protocol::decoder::{read_varint, varint_len, varint_value, lemma_varint_len};
use vstd::prelude::*;

verus! {

/// The milliseconds that a partly received packet may wait for its next
/// segment before the buffer is considered stuck and reset.
pub const STUCK_BUFFER_MS: u64 = 500;

/// The largest packet that is accepted.
pub const MAX_PACKET_LEN: u64 = 65535;

/// A buffer that is longer than this cannot be waiting for the rest of a
/// packet that claims to be longer than the buffer.
pub const MAX_PENDING_LEN: u64 = 1024;

/// Milliseconds since the Unix epoch.
///
/// Trusted: reads the clock through `SystemTime::now` and
/// `duration_since(UNIX_EPOCH)` (0 when the clock is before the epoch);
/// nothing is promised of the value.
#[verifier::external_body]
pub(crate) fn get_timestamp() -> u64 {
    std::time::SystemTime::now()
        .duration_since(std::time::UNIX_EPOCH)
        .unwrap_or_default()
        .as_millis() as u64
}

/// Accumulates the bytes of one TCP stream and cuts them into packets that
/// start with 0x0A followed by a varint length.
#[derive(Debug)]
pub struct PacketBuffer {
    pub buffer: Vec<u8>,
    /// When a packet was last cut out (or the buffer last restarted), in ms.
    pub last_success_ms: u64,
}

/// The first position from `k` on that holds 0x0A.
pub open spec fn first_start_from(buf: Seq<u8>, k: int) -> Option<int>
    decreases buf.len() - k,
{
    if k < 0 || k >= buf.len() {
        None
    } else if buf[k] == 0x0A {
        Some(k)
    } else {
        first_start_from(buf, k + 1)
    }
}

pub proof fn lemma_first_start(buf: Seq<u8>, k: int)
    requires
        0 <= k,
    ensures
        first_start_from(buf, k) matches Some(i) ==> k <= i < buf.len() && buf[i] == 0x0A
            && forall|j: int| k <= j < i ==> buf[j] != 0x0A,
        first_start_from(buf, k) is None ==> forall|j: int| k <= j < buf.len() ==> buf[j] != 0x0A,
    decreases buf.len() - k,
{
    if k < buf.len() && buf[k] != 0x0A {
        lemma_first_start(buf, k + 1);
    }
}

/// The length that a packet starting at the beginning of `b` claims: the
/// start byte, its length varint and the bytes the varint counts.
pub open spec fn claimed_len(b: Seq<u8>) -> int {
    1 + varint_len(b.skip(1)) + varint_value(b.skip(1))
}

/// Whether the 0x0A at the start of `b` cannot start a real packet: it
/// claims more than the largest packet, or more than a buffer that is already
/// longer than any pending packet can be.
pub open spec fn is_fake_start(b: Seq<u8>) -> bool {
    claimed_len(b) > MAX_PACKET_LEN || (claimed_len(b) > b.len() && b.len() > MAX_PENDING_LEN)
}

/// The next packet cut from `buf`, and what stays in the buffer.
///
/// Fewer than three bytes: nothing. No 0x0A: nothing, and the buffer is
/// emptied. Otherwise the bytes before the first 0x0A are dropped; an
/// incomplete length varint waits for more data; a fake start is dropped and
/// the search goes on; a packet that is all there is cut out; else the buffer
/// waits for more data.
pub open spec fn frame_next(buf: Seq<u8>) -> (Option<Seq<u8>>, Seq<u8>)
    decreases buf.len(),
{
    if buf.len() < 3 {
        (None, buf)
    } else {
        match first_start_from(buf, 0) {
            None => (None, Seq::empty()),
            Some(idx) => {
                let b = buf.skip(idx);
                if varint_len(b.skip(1)) == 0 {
                    (None, b)
                } else if is_fake_start(b) {
                    proof {
                        lemma_first_start(buf, 0);
                    }
                    frame_next(b.skip(1))
                } else if b.len() >= claimed_len(b) {
                    (Some(b.take(claimed_len(b))), b.skip(claimed_len(b)))
                } else {
                    (None, b)
                }
            },
        }
    }
}

impl PacketBuffer {
    /// An empty buffer whose timer starts now.
    pub fn new() -> (r: Self)
        ensures
            r.buffer@ == Seq::<u8>::empty(),
    {
        PacketBuffer { buffer: Vec::new(), last_success_ms: get_timestamp() }
    }

    /// The buffer after appending the bytes of a segment received at `now`.
    pub open spec fn after_add(buffer: Seq<u8>, last_success_ms: u64, data: Seq<u8>, now: u64) -> Seq<u8> {
        if buffer.len() > 0 && now - last_success_ms <= STUCK_BUFFER_MS {
            buffer + data
        } else {
            data
        }
    }

    /// When the buffer last restarted or produced a packet, after a segment
    /// received at `now`: unchanged while it holds data that is not stuck,
    /// else `now`.
    pub open spec fn timer_after_add(buffer: Seq<u8>, last_success_ms: u64, now: u64) -> u64 {
        if buffer.len() > 0 && now - last_success_ms <= STUCK_BUFFER_MS {
            last_success_ms
        } else {
            now
        }
    }

    /// Appends the bytes of a TCP segment received at `now` (ms).
    ///
    /// A buffer that holds data and has not produced a packet for more than
    /// 500 ms is stuck: it is emptied before the new bytes are added. Adding
    /// to an empty buffer restarts its timer.
    pub fn add_at(&mut self, data: &[u8], now: u64)
        ensures
            final(self).buffer@ == Self::after_add(old(self).buffer@, old(self).last_success_ms, data@, now),
            final(self).last_success_ms == Self::timer_after_add(old(self).buffer@, old(self).last_success_ms, now),
            old(self).buffer@.len() > 0 && now - old(self).last_success_ms > STUCK_BUFFER_MS ==> {
                &&& final(self).buffer@ == data@
                &&& final(self).last_success_ms == now
            },
            old(self).buffer@.len() > 0 && now - old(self).last_success_ms <= STUCK_BUFFER_MS ==> {
                &&& final(self).buffer@ == old(self).buffer@ + data@
                &&& final(self).last_success_ms == old(self).last_success_ms
            },
            old(self).buffer@.len() == 0 ==> {
                &&& final(self).buffer@ == data@
                &&& final(self).last_success_ms == now
            },
    {
        if self.buffer.len() > 0 {
            if now.saturating_sub(self.last_success_ms) > STUCK_BUFFER_MS {
                self.buffer.clear();
                self.last_success_ms = now;
            }
        } else {
            self.last_success_ms = now;
        }
        self.buffer.extend_from_slice(data);
        proof {
            assert(self.buffer@ =~= old(self).buffer@ + data@ || self.buffer@ =~= data@);
        }
    }

    /// Appends the bytes of a TCP segment, with the clock read now.
    pub fn add(&mut self, data: &[u8])
        ensures
            final(self).buffer@ == old(self).buffer@ + data@ || final(self).buffer@ == data@,
            old(self).buffer@.len() == 0 ==> final(self).buffer@ == data@,
    {
        let now = get_timestamp();
        self.add_at(data, now);
    }

    /// Cuts the next complete packet out of the buffer, if there is one.
    pub fn next(&mut self) -> (r: Option<Vec<u8>>)
        ensures
            frame_next(old(self).buffer@) == (
                match r {
                    Some(p) => Some(p@),
                    None => None,
                },
                final(self).buffer@,
            ),
            r is None ==> final(self).last_success_ms == old(self).last_success_ms,
    {
        loop
            invariant
                frame_next(self.buffer@) == frame_next(old(self).buffer@),
                self.last_success_ms == old(self).last_success_ms,
            decreases self.buffer@.len(),
        {
            if self.buffer.len() < 3 {
                return None;
            }
            let ghost buf = self.buffer@;
            let mut idx: usize = 0;
            while idx < self.buffer.len() && self.buffer[idx] != 0x0A
                invariant
                    idx <= self.buffer@.len(),
                    self.buffer@ == buf,
                    first_start_from(buf, 0) == first_start_from(buf, idx as int),
                decreases self.buffer@.len() - idx,
            {
                idx = idx + 1;
            }
            proof {
                lemma_first_start(buf, 0);
            }
            if idx == self.buffer.len() {
                self.buffer.clear();
                return None;
            }
            if idx > 0 {
                self.buffer = self.buffer.split_off(idx);
            }
            assert(self.buffer@ == buf.skip(idx as int));
            let (msg_len, varint_size) = read_varint(&self.buffer[1..self.buffer.len()]);
            assert(self.buffer@.subrange(1, self.buffer@.len() as int) == self.buffer@.skip(1));
            if varint_size == 0 {
                return None;
            }
            proof {
                lemma_varint_len(self.buffer@.skip(1));
            }
            let len = self.buffer.len();
            let fake = msg_len > MAX_PACKET_LEN
                || (1 + varint_size + msg_len as usize) as u64 > MAX_PACKET_LEN
                || (1 + varint_size + msg_len as usize > len && len as u64 > MAX_PENDING_LEN);
            if fake {
                self.buffer = self.buffer.split_off(1);
                continue;
            }
            let total_len = 1 + varint_size + msg_len as usize;
            if len >= total_len {
                let mut packet = self.buffer.split_off(total_len);
                std::mem::swap(&mut packet, &mut self.buffer);
                self.last_success_ms = get_timestamp();
                return Some(packet);
            }
            return None;
        }
    }
}

} // verus!

verus! {

/// Reassembly only cuts: a packet cut from the buffer starts with 0x0A,
/// claims exactly its own length, is no longer than the largest packet, and
/// stands in the old buffer right before what stays, which is a suffix of the
/// old buffer. The bytes before the packet were dropped.
pub proof fn law_frame_next_cuts(buf: Seq<u8>)
    ensures
        ({
            let (p, rest) = frame_next(buf);
            &&& rest.len() <= buf.len()
            &&& buf.skip(buf.len() - rest.len()) == rest
            &&& p matches Some(pkt) ==> {
                &&& pkt.len() == claimed_len(pkt)
                &&& pkt[0] == 0x0A
                &&& pkt.len() <= MAX_PACKET_LEN
                &&& pkt.len() + rest.len() <= buf.len()
                &&& buf.subrange(buf.len() - rest.len() - pkt.len(), buf.len() - rest.len()) == pkt
            }
        }),
    decreases buf.len(),
{
    if buf.len() >= 3 {
        lemma_first_start(buf, 0);
        match first_start_from(buf, 0) {
            None => {},
            Some(idx) => {
                let b = buf.skip(idx);
                if varint_len(b.skip(1)) != 0 {
                    lemma_varint_len(b.skip(1));
                    if is_fake_start(b) {
                        law_frame_next_cuts(b.skip(1));
                        let rest = frame_next(b.skip(1)).1;
                        assert(b.skip(1).skip(b.skip(1).len() - rest.len()) == buf.skip(
                            buf.len() - rest.len(),
                        ));
                        if let Some(pkt) = frame_next(b.skip(1)).0 {
                            assert(b.skip(1).subrange(
                                b.skip(1).len() - rest.len() - pkt.len(),
                                b.skip(1).len() - rest.len(),
                            ) == buf.subrange(buf.len() - rest.len() - pkt.len(), buf.len() - rest.len()));
                        }
                    } else if b.len() >= claimed_len(b) {
                        let pkt = b.take(claimed_len(b));
                        assert(pkt.skip(1).take(varint_len(b.skip(1))) == b.skip(1).take(
                            varint_len(b.skip(1)),
                        ));
                        law_varint_prefix_stable(b.skip(1), pkt.skip(1));
                        assert(buf.skip(buf.len() - b.skip(claimed_len(b)).len()) == b.skip(
                            claimed_len(b),
                        ));
                        assert(buf.subrange(idx, idx + claimed_len(b)) == pkt);
                    } else {
                        assert(buf.skip(buf.len() - b.len()) == b);
                    }
                } else {
                    assert(buf.skip(buf.len() - b.len()) == b);
                }
            },
        }
    } else {
        assert(buf.skip(0) == buf);
    }
}

/// A complete packet at the head of the buffer comes out whole: whatever
/// bytes follow it, the next cut is that packet and exactly those bytes stay.
pub proof fn law_whole_packet_cut(p: Seq<u8>, rest: Seq<u8>)
    requires
        p.len() > 0,
        p[0] == 0x0A,
        varint_len(p.skip(1)) > 0,
        claimed_len(p) == p.len(),
        p.len() <= MAX_PACKET_LEN,
        p.len() + rest.len() >= 3,
    ensures
        frame_next(p + rest) == (Some(p), rest),
{
    let buf = p + rest;
    lemma_varint_len(p.skip(1));
    let n = varint_len(p.skip(1));
    assert(buf.skip(1).take(n) == p.skip(1).take(n));
    law_varint_prefix_stable(p.skip(1), buf.skip(1));
    assert(first_start_from(buf, 0) == Some(0int));
    assert(buf.skip(0) == buf);
    assert(claimed_len(buf) == p.len());
    assert(buf.take(p.len() as int) == p);
    assert(buf.skip(p.len() as int) == rest);
}

/// A packet that has only partly arrived waits: while the buffer holds a
/// proper prefix of it (at least three bytes, and no more than a pending
/// packet may take), nothing is cut and nothing is dropped.
pub proof fn law_partial_packet_waits(p: Seq<u8>, m: int)
    requires
        p.len() > 0,
        p[0] == 0x0A,
        varint_len(p.skip(1)) > 0,
        claimed_len(p) == p.len(),
        p.len() <= MAX_PACKET_LEN,
        3 <= m < p.len(),
        m <= MAX_PENDING_LEN,
    ensures
        frame_next(p.take(m)) == (None::<Seq<u8>>, p.take(m)),
{
    let q = p.take(m);
    lemma_varint_len(p.skip(1));
    let n = varint_len(p.skip(1));
    assert(first_start_from(q, 0) == Some(0int));
    assert(q.skip(0) == q);
    if n <= q.len() - 1 {
        assert(q.skip(1).take(n) == p.skip(1).take(n));
        law_varint_prefix_stable(p.skip(1), q.skip(1));
        assert(claimed_len(q) == p.len());
    } else {
        lemma_varint_len_truncated(p.skip(1), q.skip(1), 0);
    }
}

proof fn lemma_varint_len_truncated(a: Seq<u8>, b: Seq<u8>, k: int)
    requires
        0 <= k,
        varint_len(a) > 0,
        b.len() < varint_len(a),
        forall|j: int| 0 <= j < b.len() ==> b[j] == a[j],
    ensures
        crate::protocol::decoder::varint_len_from(b, k) == 0,
    decreases 10 - k,
{
    lemma_varint_len(a);
    if k < b.len() && k < 10 {
        assert(b[k] == a[k]);
        lemma_varint_len_truncated(a, b, k + 1);
    }
}

/// A complete varint reads the same from any data that starts with its bytes.
pub proof fn law_varint_prefix_stable(a: Seq<u8>, b: Seq<u8>)
    requires
        varint_len(a) > 0,
        b.len() >= varint_len(a),
        b.take(varint_len(a)) == a.take(varint_len(a)),
    ensures
        varint_len(b) == varint_len(a),
        varint_value(b) == varint_value(a),
{
    lemma_varint_len(a);
    let n = varint_len(a);
    assert forall|j: int| 0 <= j < n implies b[j] == a[j] by {
        assert(b.take(n)[j] == a.take(n)[j]);
    }
    lemma_varint_len_prefix_from(a, b, 0);
}

proof fn lemma_varint_len_prefix_from(a: Seq<u8>, b: Seq<u8>, k: int)
    requires
        0 <= k,
        crate::protocol::decoder::varint_len_from(a, k) > 0,
        b.len() >= crate::protocol::decoder::varint_len_from(a, k),
        forall|j: int| 0 <= j < crate::protocol::decoder::varint_len_from(a, k) ==> b[j] == a[j],
    ensures
        crate::protocol::decoder::varint_len_from(b, k) == crate::protocol::decoder::varint_len_from(
            a,
            k,
        ),
    decreases 10 - k,
{
    crate::protocol::decoder::lemma_varint_len_bounds(a, k);
    if a[k] >= 0x80 {
        lemma_varint_len_prefix_from(a, b, k + 1);
    }
}

} // verus!

verus! {

/// Every packet that can be cut from `buf`, in order, and what stays.
pub open spec fn frames(buf: Seq<u8>) -> (Seq<Seq<u8>>, Seq<u8>)
    decreases buf.len(),
{
    match frame_next(buf).0 {
        Some(p) => {
            proof {
                law_frame_next_cuts(buf);
                lemma_varint_len(p.skip(1));
            }
            let rest = frame_next(buf).1;
            (seq![p] + frames(rest).0, frames(rest).1)
        },
        None => (Seq::empty(), frame_next(buf).1),
    }
}

impl PacketBuffer {
    /// Cuts every complete packet out of the buffer, in order.
    pub(crate) fn drain_packets(&mut self) -> (r: Vec<Vec<u8>>)
        ensures
            r@.len() == frames(old(self).buffer@).0.len(),
            forall|j: int| 0 <= j < r@.len() ==> #[trigger] r@[j]@ == frames(old(self).buffer@).0[j],
            final(self).buffer@ == frames(old(self).buffer@).1,
            r@.len() == 0 ==> final(self).last_success_ms == old(self).last_success_ms,
    {
        let mut out: Vec<Vec<u8>> = Vec::new();
        let ghost start = self.buffer@;
        loop
            invariant
                start == old(self).buffer@,
                out@.len() == 0 ==> self.last_success_ms == old(self).last_success_ms,
                frames(start).1 == frames(self.buffer@).1,
                frames(start).0 == Seq::new(out@.len() as nat, |j: int| out@[j]@) + frames(
                    self.buffer@,
                ).0,
            decreases self.buffer@.len(),
        {
            let ghost before = self.buffer@;
            proof {
                law_frame_next_cuts(before);
            }
            match self.next() {
                Some(p) => {
                    let ghost pv = p@;
                    let ghost prev_out = out@;
                    out.push(p);
                    assert(Seq::new(out@.len() as nat, |j: int| out@[j]@) =~= Seq::new(
                        prev_out.len() as nat,
                        |j: int| prev_out[j]@,
                    ).push(pv));
                    assert(frame_next(before).0 == Some(pv));
                    proof {
                        lemma_varint_len(pv.skip(1));
                    }
                    assert(frames(before).0 == seq![pv] + frames(self.buffer@).0);
                    assert(frames(before).1 == frames(self.buffer@).1);
                    assert(frames(start).0 =~= Seq::new(out@.len() as nat, |j: int| out@[j]@)
                        + frames(self.buffer@).0);
                },
                None => {
                    assert(frame_next(before).0 is None);
                    assert(frames(before) == (Seq::<Seq<u8>>::empty(), self.buffer@));
                    assert(frames(start).0 =~= Seq::new(out@.len() as nat, |j: int| out@[j]@));
                    assert(frames(start).0.len() == out@.len());
                    assert forall|j: int| 0 <= j < out@.len() implies #[trigger] out@[j]@ == frames(
                        start,
                    ).0[j] by {
                        assert(Seq::new(out@.len() as nat, |j: int| out@[j]@)[j] == out@[j]@);
                    }
                    return out;
                },
            }
        }
    }
}

} // verus!
