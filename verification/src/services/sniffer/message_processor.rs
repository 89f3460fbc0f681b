//! Identity, blocking and de-duplication of parsed chat messages.

use crate::protocol::types::{ChatMessage, ChatMessageView};
use std::collections::{HashMap, HashSet};
use std::hash::{Hash, Hasher};
use vstd::prelude::*;

verus! {

broadcast use vstd::std_specs::hash::group_hash_axioms;

/// Keeps a message id within the 53 bits that a JavaScript number holds.
pub const PID_MASK: u64 = 0x1F_FFFF_FFFF_FFFF;

/// The de-duplication cache is emptied when it grows past this many ids.
pub const DEDUP_CACHE_LIMIT: usize = 2000;

/// What to do with a parsed chat message.
#[derive(Clone, Copy, Debug, PartialEq, Eq, Structural)]
pub enum ProcessAction {
    IgnoreDuplicate,
    EmitNewMessage,
    UpdateBlockedMessage,
}

/// The value that std's `DefaultHasher` gives for the tuple
/// `(uid, timestamp, sequence_id)`.
/// Hash values are not portable across platforms or Rust releases; within
/// one program, equal inputs always give equal values, which is all that is
/// relied on.
pub uninterp spec fn signature_hash(uid: u64, timestamp: u64, sequence_id: u64) -> u64;

/// Hashes the signature of a message.
///
/// Trusted: hashes the tuple `(uid, timestamp, sequence_id)` with
/// `std::collections::hash_map::DefaultHasher::new()` (fixed keys, so the
/// same values give the same hash) and `finish`; the result is named
/// `signature_hash`.
#[verifier::external_body]
fn hash_signature(uid: u64, timestamp: u64, sequence_id: u64) -> (r: u64)
    ensures
        r == signature_hash(uid, timestamp, sequence_id),
{
    let mut hasher = std::collections::hash_map::DefaultHasher::new();
    (uid, timestamp, sequence_id).hash(&mut hasher);
    hasher.finish()
}

/// The id of a message: the hash of its sender, time and sequence id, cut to
/// 53 bits.
pub open spec fn message_pid(uid: u64, timestamp: u64, sequence_id: u64) -> u64 {
    signature_hash(uid, timestamp, sequence_id) & PID_MASK
}

/// A message after processing: it carries its id, and it is blocked when it
/// was or when its sender is blocked.
pub open spec fn processed_message(chat: ChatMessageView, blocked: Set<u64>) -> ChatMessageView {
    ChatMessageView {
        pid: message_pid(chat.uid, chat.timestamp, chat.sequence_id),
        is_blocked: chat.is_blocked || blocked.contains(chat.uid),
        ..chat
    }
}

/// What to do with a processed message given the ids already emitted: a
/// known id is a duplicate (to update, when now blocked); a new one is
/// emitted.
pub open spec fn process_action(cache: Set<u64>, chat: ChatMessageView) -> ProcessAction {
    if cache.contains(chat.pid) {
        if chat.is_blocked {
            ProcessAction::UpdateBlockedMessage
        } else {
            ProcessAction::IgnoreDuplicate
        }
    } else {
        ProcessAction::EmitNewMessage
    }
}

/// The cache after an id is registered: emptied when it grows past the limit.
pub open spec fn committed(cache: Set<u64>, pid: u64) -> Set<u64> {
    if cache.insert(pid).len() > DEDUP_CACHE_LIMIT {
        Set::empty()
    } else {
        cache.insert(pid)
    }
}

/// Gives chat messages their ids and decides what to do with them.
pub struct MessageProcessor {
    pub dedup_cache: HashSet<u64>,
}

impl MessageProcessor {
    /// A processor that has seen nothing.
    pub fn new() -> (r: Self)
        ensures
            r.dedup_cache@ == Set::<u64>::empty(),
    {
        MessageProcessor { dedup_cache: HashSet::new() }
    }

    /// Gives `chat` its id, marks it blocked when its sender is blocked, and
    /// says whether it is new, a duplicate, or a duplicate to update.
    pub fn process(&mut self, chat: &mut ChatMessage, blocked_users: &HashMap<u64, String>) -> (r:
        ProcessAction)
        ensures
            final(chat)@ == processed_message(old(chat)@, blocked_users@.dom()),
            r == process_action(old(self).dedup_cache@, final(chat)@),
            final(self).dedup_cache@ == old(self).dedup_cache@,
            final(chat).pid <= PID_MASK,
    {
        let h = hash_signature(chat.uid, chat.timestamp, chat.sequence_id);
        self.process_signed(chat, h, blocked_users)
    }

    /// Does the work of [`Self::process`] once the signature of `chat` is
    /// hashed: its id is `signature` cut to 53 bits.
    pub fn process_signed(&self, chat: &mut ChatMessage, signature: u64, blocked_users: &HashMap<u64, String>) -> (r:
        ProcessAction)
        ensures
            final(chat)@ == (ChatMessageView {
                pid: signature & PID_MASK,
                is_blocked: old(chat).is_blocked || blocked_users@.dom().contains(old(chat).uid),
                ..old(chat)@
            }),
            r == process_action(self.dedup_cache@, final(chat)@),
            final(chat).pid <= PID_MASK,
    {
        chat.pid = signature & PID_MASK;
        assert(signature & PID_MASK <= PID_MASK) by (bit_vector);
        if blocked_users.contains_key(&chat.uid) {
            chat.is_blocked = true;
        }
        if self.dedup_cache.contains(&chat.pid) {
            if chat.is_blocked {
                return ProcessAction::UpdateBlockedMessage;
            }
            return ProcessAction::IgnoreDuplicate;
        }
        ProcessAction::EmitNewMessage
    }

    /// Registers an emitted message so that it is recognised as a duplicate;
    /// the cache is emptied when it grows past its limit.
    pub fn commit_new_message(&mut self, chat: &ChatMessage)
        ensures
            final(self).dedup_cache@ == committed(old(self).dedup_cache@, chat.pid),
            final(self).dedup_cache@.len() <= DEDUP_CACHE_LIMIT,
    {
        self.dedup_cache.insert(chat.pid);
        if self.dedup_cache.len() > DEDUP_CACHE_LIMIT {
            self.dedup_cache.clear();
        }
    }
}

/// A message that was emitted is a duplicate when it comes again, unless the
/// cache was emptied on registering it (it held the limit already).
pub proof fn law_emitted_is_duplicate(
    cache: Set<u64>,
    chat: ChatMessageView,
    again: ChatMessageView,
    blocked: Set<u64>,
)
    requires
        cache.finite(),
        cache.len() < DEDUP_CACHE_LIMIT,
        again.uid == chat.uid,
        again.timestamp == chat.timestamp,
        again.sequence_id == chat.sequence_id,
    ensures
        process_action(
            committed(cache, processed_message(chat, blocked).pid),
            processed_message(again, blocked),
        ) != ProcessAction::EmitNewMessage,
{
    let pid = processed_message(chat, blocked).pid;
    assert(cache.insert(pid).len() <= cache.len() + 1);
}

} // verus!
