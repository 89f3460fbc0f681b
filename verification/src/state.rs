//! The backend's in-memory state: the chat history, the system log, the
//! window of recent fingerprints and the nickname cache.

use crate::protocol::types::{
    ChatMessage, ChatMessageView, SystemLogLevel, SystemMessage, SystemMessageView, level_name,
};
use crate::text::same_text;
use indexmap::IndexMap;
use std::collections::{HashMap, VecDeque};
use std::hash::{Hash, Hasher};
use vstd::prelude::*;

verus! {

#[verifier::external_type_specification]
#[verifier::external_body]
#[verifier::reject_recursive_types(K)]
#[verifier::reject_recursive_types(V)]
#[verifier::reject_recursive_types(S)]
pub struct ExIndexMap<K, V, S>(IndexMap<K, V, S>);

/// What a chat map holds: its (pid, message) pairs in insertion order.
pub uninterp spec fn chat_entries(m: IndexMap<u64, ChatMessage>) -> Seq<(u64, ChatMessageView)>;

/// Whether some pair of `e` has key `key`.
pub open spec fn has_key(e: Seq<(u64, ChatMessageView)>, key: u64) -> bool {
    exists|i: int| 0 <= i < e.len() && #[trigger] e[i].0 == key
}

/// The place of `key` in `e`, when it is there.
pub open spec fn key_position(e: Seq<(u64, ChatMessageView)>, key: u64) -> int {
    choose|i: int| 0 <= i < e.len() && #[trigger] e[i].0 == key
}

/// Whether no key occurs twice in `e`.
pub open spec fn keys_unique(e: Seq<(u64, ChatMessageView)>) -> bool {
    forall|i: int, j: int| 0 <= i < j < e.len() ==> #[trigger] e[i].0 != #[trigger] e[j].0
}

/// `e` after inserting `v` under `key`: a present key keeps its place and
/// takes the new value, a new key goes last.
pub open spec fn upserted(e: Seq<(u64, ChatMessageView)>, key: u64, v: ChatMessageView) -> Seq<
    (u64, ChatMessageView),
> {
    if has_key(e, key) {
        e.update(key_position(e, key), (key, v))
    } else {
        e.push((key, v))
    }
}

/// Creates an empty map.
///
/// Trusted: calls `IndexMap::new`, which creates a map with no pairs.
#[verifier::external_body]
fn chat_map_new() -> (m: IndexMap<u64, ChatMessage>)
    ensures
        chat_entries(m) == Seq::<(u64, ChatMessageView)>::empty(),
{
    IndexMap::new()
}

/// The number of pairs.
///
/// Trusted: calls `IndexMap::len`, the number of key-value pairs.
#[verifier::external_body]
fn chat_map_len(m: &IndexMap<u64, ChatMessage>) -> (r: usize)
    ensures
        r == chat_entries(*m).len(),
{
    m.len()
}

/// Inserts `value` under `key`.
///
/// Trusted: calls `IndexMap::insert`, documented to keep a present key in its
/// place with the new value and to put a new key last; a map never holds a
/// key twice.
#[verifier::external_body]
fn chat_map_insert(m: &mut IndexMap<u64, ChatMessage>, key: u64, value: ChatMessage)
    ensures
        keys_unique(chat_entries(*old(m))) ==> keys_unique(chat_entries(*final(m))),
        chat_entries(*final(m)) == upserted(chat_entries(*old(m)), key, value@),
{
    let _ = m.insert(key, value);
}

/// Removes the pair at `index`, shifting the later ones forward.
///
/// Trusted: calls `IndexMap::shift_remove_index`, which removes the pair at a
/// valid index and keeps the order of the others, and does nothing otherwise.
#[verifier::external_body]
fn chat_map_shift_remove_index(m: &mut IndexMap<u64, ChatMessage>, index: usize) -> (r: Option<(u64, ChatMessage)>)
    ensures
        index < chat_entries(*old(m)).len() ==> {
            &&& chat_entries(*final(m)) == chat_entries(*old(m)).remove(index as int)
            &&& r is Some
            &&& r.unwrap().0 == chat_entries(*old(m))[index as int].0
            &&& r.unwrap().1@ == chat_entries(*old(m))[index as int].1
        },
        index >= chat_entries(*old(m)).len() ==> chat_entries(*final(m)) == chat_entries(*old(m))
            && r is None,
{
    m.shift_remove_index(index)
}

/// The pair at `index`.
///
/// Trusted: calls `IndexMap::get_index`, which gives the pair at a valid index
/// and `None` otherwise.
#[verifier::external_body]
fn chat_map_get_index(m: &IndexMap<u64, ChatMessage>, index: usize) -> (r: Option<(&u64, &ChatMessage)>)
    ensures
        index < chat_entries(*m).len() ==> r is Some && *r.unwrap().0 == chat_entries(*m)[index as int].0
            && r.unwrap().1@ == chat_entries(*m)[index as int].1,
        index >= chat_entries(*m).len() ==> r is None,
{
    m.get_index(index)
}

/// The value under `key`.
///
/// Trusted: calls `IndexMap::get`, which gives the value stored for the key
/// and `None` when the key is absent.
#[verifier::external_body]
fn chat_map_get<'a>(m: &'a IndexMap<u64, ChatMessage>, key: u64) -> (r: Option<&'a ChatMessage>)
    ensures
        r is Some <==> has_key(chat_entries(*m), key),
        r is Some ==> r->0@ == chat_entries(*m)[key_position(chat_entries(*m), key)].1,
{
    m.get(&key)
}

/// Removes every pair.
///
/// Trusted: calls `IndexMap::clear`, which leaves the map empty.
#[verifier::external_body]
fn chat_map_clear(m: &mut IndexMap<u64, ChatMessage>)
    ensures
        chat_entries(*final(m)) == Seq::<(u64, ChatMessageView)>::empty(),
{
    m.clear()
}

/// `e` after dropping its oldest pairs until fewer than `limit` remain (all
/// of them when `limit` is zero).
pub open spec fn evicted(e: Seq<(u64, ChatMessageView)>, limit: nat) -> Seq<(u64, ChatMessageView)> {
    if limit == 0 {
        Seq::empty()
    } else if e.len() >= limit {
        e.subrange(e.len() - limit + 1, e.len() as int)
    } else {
        e
    }
}

/// Whether every pair of `e` is keyed by its message's pid.
pub open spec fn keyed_by_pid(e: Seq<(u64, ChatMessageView)>) -> bool {
    forall|i: int| 0 <= i < e.len() ==> #[trigger] e[i].0 == e[i].1.pid
}

/// The recent chat messages keyed by pid, oldest first.
pub struct ChatHistory {
    map: IndexMap<u64, ChatMessage>,
}

impl View for ChatHistory {
    type V = Seq<(u64, ChatMessageView)>;

    closed spec fn view(&self) -> Seq<(u64, ChatMessageView)> {
        chat_entries(self.map)
    }
}

/// The messages of `e`, in order.
pub open spec fn history_messages(e: Seq<(u64, ChatMessageView)>) -> Seq<ChatMessageView> {
    e.map_values(|p: (u64, ChatMessageView)| p.1)
}

impl ChatHistory {
    /// No pid occurs twice and each message sits under its own pid.
    pub open spec fn wf(&self) -> bool {
        keys_unique(self@) && keyed_by_pid(self@)
    }

    /// An empty history.
    pub fn new() -> (h: Self)
        ensures
            h.wf(),
            h@ == Seq::<(u64, ChatMessageView)>::empty(),
    {
        ChatHistory { map: chat_map_new() }
    }

    /// The number of stored messages.
    pub fn len(&self) -> (r: usize)
        ensures
            r == self@.len(),
    {
        chat_map_len(&self.map)
    }

    /// Stores `msg` under its pid: a message with that pid is replaced in
    /// place, a new one goes last.
    pub fn insert(&mut self, msg: ChatMessage)
        requires
            old(self).wf(),
        ensures
            final(self).wf(),
            final(self)@ == upserted(old(self)@, msg.pid, msg@),
    {
        let ghost before = self@;
        let pid = msg.pid;
        chat_map_insert(&mut self.map, pid, msg);
        proof {
            let e = self@;
            if has_key(before, pid) {
                let k = key_position(before, pid);
                assert forall|i: int| 0 <= i < e.len() implies #[trigger] e[i].0 == e[i].1.pid by {
                    if i != k {
                        assert(e[i] == before[i]);
                    }
                }
            } else {
                assert forall|i: int| 0 <= i < e.len() implies #[trigger] e[i].0 == e[i].1.pid by {
                    if i < before.len() {
                        assert(e[i] == before[i]);
                    }
                }
            }
        }
    }

    /// Stores a new message, first dropping the oldest ones until fewer than
    /// `limit` remain.
    pub fn store(&mut self, msg: ChatMessage, limit: usize)
        requires
            old(self).wf(),
        ensures
            final(self).wf(),
            final(self)@ == upserted(evicted(old(self)@, limit as nat), msg.pid, msg@),
    {
        let ghost before = self@;
        let ghost mut k: int = 0;
        while chat_map_len(&self.map) >= limit && chat_map_len(&self.map) > 0
            invariant
                self.wf(),
                0 <= k <= before.len(),
                self@ == before.subrange(k, before.len() as int),
                k > 0 ==> before.len() - k + 1 >= limit,
            decreases self@.len(),
        {
            let ghost cur = self@;
            let _ = chat_map_shift_remove_index(&mut self.map, 0);
            proof {
                assert(self@ =~= before.subrange(k + 1, before.len() as int));
                assert forall|i: int, j: int| 0 <= i < j < self@.len() implies #[trigger] self@[i].0
                    != #[trigger] self@[j].0 by {
                    assert(self@[i] == cur[i + 1]);
                    assert(self@[j] == cur[j + 1]);
                }
                assert forall|i: int| 0 <= i < self@.len() implies #[trigger] self@[i].0
                    == self@[i].1.pid by {
                    assert(self@[i] == cur[i + 1]);
                }
                k = k + 1;
            }
        }
        proof {
            if limit == 0 {
                assert(self@ =~= Seq::<(u64, ChatMessageView)>::empty());
            } else if before.len() >= limit {
                assert(k == before.len() - limit + 1);
            } else {
                assert(k == 0);
                assert(self@ =~= before);
            }
        }
        self.insert(msg);
    }

    /// A copy of the message stored under `pid`.
    pub fn get(&self, pid: u64) -> (r: Option<ChatMessage>)
        ensures
            r is Some <==> has_key(self@, pid),
            r is Some ==> r->0@ == self@[key_position(self@, pid)].1,
    {
        match chat_map_get(&self.map, pid) {
            Some(m) => Some(m.copy()),
            None => None,
        }
    }

    /// Records the translation of the message stored under `pid`, if any.
    pub fn set_translated(&mut self, pid: u64, translated: String)
        requires
            old(self).wf(),
        ensures
            final(self).wf(),
            has_key(old(self)@, pid) ==> final(self)@ == old(self)@.update(
                key_position(old(self)@, pid),
                (pid, ChatMessageView { translated: Some(translated@), ..old(self)@[key_position(old(self)@, pid)].1 }),
            ),
            !has_key(old(self)@, pid) ==> final(self)@ == old(self)@,
    {
        let ghost before = self@;
        if let Some(mut m) = self.get(pid) {
            proof {
                let k = key_position(before, pid);
                assert(before[k].0 == pid);
            }
            m.translated = Some(translated);
            self.insert(m);
        }
    }

    /// Copies of all stored messages, oldest first.
    pub fn messages(&self) -> (r: Vec<ChatMessage>)
        ensures
            r@.map_values(|m: ChatMessage| m@) == history_messages(self@),
    {
        let n = chat_map_len(&self.map);
        let mut out: Vec<ChatMessage> = Vec::new();
        let mut i: usize = 0;
        while i < n
            invariant
                n == self@.len(),
                i <= n,
                out@.len() == i,
                forall|j: int| 0 <= j < i ==> #[trigger] out@[j]@ == self@[j].1,
            decreases n - i,
        {
            match chat_map_get_index(&self.map, i) {
                Some((_, m)) => {
                    out.push(m.copy());
                },
                None => {},
            }
            i += 1;
        }
        assert(out@.map_values(|m: ChatMessage| m@) =~= history_messages(self@));
        out
    }

    /// Removes every message.
    pub fn clear(&mut self)
        ensures
            final(self).wf(),
            final(self)@ == Seq::<(u64, ChatMessageView)>::empty(),
    {
        chat_map_clear(&mut self.map);
    }

    /// Marks the message stored under `pid` as blocked and gives back the
    /// updated message, unless it is absent or blocked already.
    pub fn mark_blocked(&mut self, pid: u64) -> (r: Option<ChatMessage>)
        requires
            old(self).wf(),
        ensures
            final(self).wf(),
            ({
                let e = old(self)@;
                let k = key_position(e, pid);
                if has_key(e, pid) && !e[k].1.is_blocked {
                    let m = ChatMessageView { is_blocked: true, ..e[k].1 };
                    &&& r is Some
                    &&& r->0@ == m
                    &&& final(self)@ == e.update(k, (pid, m))
                } else {
                    r is None && final(self)@ == e
                }
            }),
    {
        let ghost e = self@;
        match self.get(pid) {
            Some(mut m) => {
                if m.is_blocked {
                    return None;
                }
                proof {
                    assert(e[key_position(e, pid)].0 == pid);
                }
                m.is_blocked = true;
                let out = m.copy();
                self.insert(m);
                Some(out)
            },
            None => None,
        }
    }

    /// Sets the blocked mark of every message from `uid` to `blocked` and
    /// gives back, in order, the messages whose mark changed.
    pub fn set_blocked_for_uid(&mut self, uid: u64, blocked: bool) -> (r: Vec<ChatMessage>)
        requires
            old(self).wf(),
        ensures
            final(self).wf(),
            final(self)@ == reblocked(old(self)@, uid, blocked),
            r@.map_values(|m: ChatMessage| m@) == changed_messages(old(self)@, uid, blocked),
    {
        let ghost e = self@;
        let n = chat_map_len(&self.map);
        let mut out: Vec<ChatMessage> = Vec::new();
        let mut i: usize = 0;
        while i < n
            invariant
                self.wf(),
                n == e.len(),
                self@.len() == n,
                i <= n,
                forall|j: int| 0 <= j < i ==> #[trigger] self@[j] == reblock_pair(e[j], uid, blocked),
                forall|j: int| i <= j < n ==> #[trigger] self@[j] == e[j],
                out@.map_values(|m: ChatMessage| m@) == changed_messages(e.take(i as int), uid, blocked),
            decreases n - i,
        {
            let ghost cur = self@;
            let entry = chat_map_get_index(&self.map, i);
            match entry {
                Some((_, m)) => {
                    if m.uid == uid && m.is_blocked != blocked {
                        let mut c = m.copy();
                        c.is_blocked = blocked;
                        let shown = c.copy();
                        proof {
                            assert(has_key(cur, cur[i as int].0));
                            let k = key_position(cur, cur[i as int].0);
                            if k != i as int {
                                assert(cur[k].0 == cur[i as int].0);
                            }
                        }
                        self.insert(c);
                        out.push(shown);
                    }
                },
                None => {},
            }
            proof {
                assert(e.take(i + 1).drop_last() =~= e.take(i as int));
            }
            i += 1;
        }
        proof {
            assert(e.take(n as int) =~= e);
            assert(self@ =~= reblocked(e, uid, blocked));
        }
        out
    }
}

/// A pair whose message is from `uid`, with the blocked mark set to `blocked`.
pub open spec fn reblock_pair(p: (u64, ChatMessageView), uid: u64, blocked: bool) -> (u64, ChatMessageView) {
    if p.1.uid == uid {
        (p.0, ChatMessageView { is_blocked: blocked, ..p.1 })
    } else {
        p
    }
}

/// The history with every message from `uid` marked `blocked`.
pub open spec fn reblocked(e: Seq<(u64, ChatMessageView)>, uid: u64, blocked: bool) -> Seq<(u64, ChatMessageView)> {
    e.map_values(|p: (u64, ChatMessageView)| reblock_pair(p, uid, blocked))
}

/// The messages of `e` from `uid` whose mark differs from `blocked`, in
/// order, as they read once re-marked.
pub open spec fn changed_messages(e: Seq<(u64, ChatMessageView)>, uid: u64, blocked: bool) -> Seq<ChatMessageView>
    decreases e.len(),
{
    if e.len() == 0 {
        Seq::empty()
    } else {
        let rest = changed_messages(e.drop_last(), uid, blocked);
        let m = e.last().1;
        if m.uid == uid && m.is_blocked != blocked {
            rest.push(ChatMessageView { is_blocked: blocked, ..m })
        } else {
            rest
        }
    }
}

/// Blocking (or unblocking) a sender is idempotent: every message from
/// `uid` carries the mark and every other message is untouched, so doing it
/// a second time changes nothing and reports no message.
pub proof fn law_reblock_idempotent(e: Seq<(u64, ChatMessageView)>, uid: u64, blocked: bool)
    ensures
        forall|j: int|
            0 <= j < e.len() ==> {
                let p = #[trigger] reblocked(e, uid, blocked)[j];
                &&& p.0 == e[j].0
                &&& e[j].1.uid == uid ==> p.1 == ChatMessageView { is_blocked: blocked, ..e[j].1 }
                &&& e[j].1.uid != uid ==> p.1 == e[j].1
            },
        reblocked(reblocked(e, uid, blocked), uid, blocked) == reblocked(e, uid, blocked),
        changed_messages(reblocked(e, uid, blocked), uid, blocked).len() == 0,
    decreases e.len(),
{
    let r = reblocked(e, uid, blocked);
    assert(reblocked(r, uid, blocked) =~= r);
    if e.len() > 0 {
        law_reblock_idempotent(e.drop_last(), uid, blocked);
        assert(r.drop_last() =~= reblocked(e.drop_last(), uid, blocked));
    }
}

/// The system log keeps at most this many lines.
pub const SYSTEM_HISTORY_LIMIT: usize = 200;

/// The recent system log lines, oldest first.
pub struct SystemHistory {
    lines: VecDeque<SystemMessage>,
}

impl View for SystemHistory {
    type V = Seq<SystemMessageView>;

    closed spec fn view(&self) -> Seq<SystemMessageView> {
        self.lines@.map_values(|m: SystemMessage| m@)
    }
}

/// The log after appending `m`: the oldest line leaves when the log is full.
pub open spec fn logged(e: Seq<SystemMessageView>, m: SystemMessageView) -> Seq<SystemMessageView> {
    if e.len() >= SYSTEM_HISTORY_LIMIT {
        e.drop_first().push(m)
    } else {
        e.push(m)
    }
}

impl SystemHistory {
    /// The log holds at most [`SYSTEM_HISTORY_LIMIT`] lines.
    pub open spec fn wf(&self) -> bool {
        self@.len() <= SYSTEM_HISTORY_LIMIT
    }

    /// An empty log.
    pub fn new() -> (h: Self)
        ensures
            h.wf(),
            h@ == Seq::<SystemMessageView>::empty(),
    {
        let h = SystemHistory { lines: VecDeque::new() };
        assert(h@ =~= Seq::<SystemMessageView>::empty());
        h
    }

    /// Appends a line, dropping the oldest when the log is full.
    pub fn push(&mut self, m: SystemMessage)
        requires
            old(self).wf(),
        ensures
            final(self).wf(),
            final(self)@ == logged(old(self)@, m@),
    {
        let ghost before = self.lines@;
        if self.lines.len() >= SYSTEM_HISTORY_LIMIT {
            let _ = self.lines.pop_front();
        }
        let ghost mid = self.lines@;
        let ghost mv = m@;
        self.lines.push_back(m);
        proof {
            if before.len() >= SYSTEM_HISTORY_LIMIT {
                assert(mid =~= before.drop_first());
                assert(self@ =~= before.map_values(|x: SystemMessage| x@).drop_first().push(mv));
            } else {
                assert(self@ =~= before.map_values(|x: SystemMessage| x@).push(mv));
            }
        }
    }

    /// Copies of all lines, oldest first.
    pub fn messages(&self) -> (r: Vec<SystemMessage>)
        ensures
            r@.map_values(|m: SystemMessage| m@) == self@,
    {
        let mut out: Vec<SystemMessage> = Vec::new();
        let mut i: usize = 0;
        while i < self.lines.len()
            invariant
                i <= self.lines@.len(),
                out@.len() == i,
                forall|j: int| 0 <= j < i ==> #[trigger] out@[j]@ == self.lines@[j]@,
            decreases self.lines@.len() - i,
        {
            out.push(self.lines[i].copy());
            i += 1;
        }
        assert(out@.map_values(|m: SystemMessage| m@) =~= self@);
        out
    }

    /// Removes every line.
    pub fn clear(&mut self)
        ensures
            final(self).wf(),
            final(self)@ == Seq::<SystemMessageView>::empty(),
    {
        self.lines.clear();
        assert(self@ =~= Seq::<SystemMessageView>::empty());
    }
}

/// How long a fingerprint is remembered, in milliseconds.
pub const DEDUPE_WINDOW_MS: u64 = 2000;

/// Whether an entry seen at `t` has left the window at `now` (time that runs
/// backwards counts as none passed).
pub open spec fn expired(t: u64, now: u64) -> bool {
    now > t && now - t > DEDUPE_WINDOW_MS
}

/// The window at `now`: its oldest entries dropped while they have expired.
pub open spec fn pruned(e: Seq<(u64, u64)>, now: u64) -> Seq<(u64, u64)>
    decreases e.len(),
{
    if e.len() > 0 && expired(e[0].1, now) {
        pruned(e.drop_first(), now)
    } else {
        e
    }
}

/// Whether `fingerprint` occurs in `e`.
pub open spec fn seen(e: Seq<(u64, u64)>, fingerprint: u64) -> bool {
    exists|i: int| 0 <= i < e.len() && #[trigger] e[i].0 == fingerprint
}

/// Whether a message is new at `now`: its fingerprint is not in the pruned window.
pub open spec fn admits(e: Seq<(u64, u64)>, fingerprint: u64, now: u64) -> bool {
    !seen(pruned(e, now), fingerprint)
}

/// The window after a message arrives at `now`.
pub open spec fn after_arrival(e: Seq<(u64, u64)>, fingerprint: u64, now: u64) -> Seq<(u64, u64)> {
    if admits(e, fingerprint, now) {
        pruned(e, now).push((fingerprint, now))
    } else {
        pruned(e, now)
    }
}

/// The fingerprints of recent messages with their arrival times, oldest first.
pub struct DedupeWindow {
    entries: VecDeque<(u64, u64)>,
}

impl View for DedupeWindow {
    type V = Seq<(u64, u64)>;

    closed spec fn view(&self) -> Seq<(u64, u64)> {
        self.entries@
    }
}

impl DedupeWindow {
    /// An empty window.
    pub fn new() -> (w: Self)
        ensures
            w@ == Seq::<(u64, u64)>::empty(),
    {
        DedupeWindow { entries: VecDeque::new() }
    }

    /// Registers a message arriving at `now` (in milliseconds) and tells
    /// whether it is new: expired entries leave first, then a fingerprint
    /// already in the window is refused, and a new one is remembered.
    pub fn arrive(&mut self, fingerprint: u64, now: u64) -> (r: bool)
        ensures
            r == admits(old(self)@, fingerprint, now),
            final(self)@ == after_arrival(old(self)@, fingerprint, now),
    {
        let ghost before = self@;
        loop
            invariant
                pruned(before, now) == pruned(self@, now),
            ensures
                pruned(before, now) == self@,
            decreases self@.len(),
        {
            if self.entries.len() == 0 {
                break;
            }
            let t = self.entries[0].1;
            if now > t && now - t > DEDUPE_WINDOW_MS {
                let _ = self.entries.pop_front();
            } else {
                break;
            }
        }
        let mut i: usize = 0;
        while i < self.entries.len()
            invariant
                self@ == pruned(before, now),
                before == old(self)@,
                i <= self@.len(),
                forall|k: int| 0 <= k < i ==> #[trigger] self@[k].0 != fingerprint,
            decreases self@.len() - i,
        {
            if self.entries[i].0 == fingerprint {
                assert(seen(self@, fingerprint)) by {
                    assert(self@[i as int].0 == fingerprint);
                }
                return false;
            }
            i += 1;
        }
        self.entries.push_back((fingerprint, now));
        true
    }
}

/// A pruned window that receives an entry still inside the window keeps it last.
pub proof fn lemma_pruned_push(e: Seq<(u64, u64)>, x: (u64, u64), now: u64)
    requires
        !expired(x.1, now),
    ensures
        pruned(e.push(x), now) == pruned(e, now).push(x),
    decreases e.len(),
{
    if e.len() > 0 {
        assert(e.push(x).drop_first() =~= e.drop_first().push(x));
        lemma_pruned_push(e.drop_first(), x, now);
    } else {
        assert(e.push(x) =~= seq![x]);
        assert(seq![x].drop_first() =~= Seq::<(u64, u64)>::empty());
    }
}

/// A message admitted at `t` is refused as a duplicate when it comes again
/// within the window, at any `t2` from `t` to `t` plus [`DEDUPE_WINDOW_MS`].
pub proof fn law_duplicate_within_window_refused(e: Seq<(u64, u64)>, fingerprint: u64, t: u64, t2: u64)
    requires
        admits(e, fingerprint, t),
        t <= t2 <= t + DEDUPE_WINDOW_MS,
    ensures
        !admits(after_arrival(e, fingerprint, t), fingerprint, t2),
{
    let p = pruned(e, t);
    lemma_pruned_push(p, (fingerprint, t), t2);
    let q = pruned(p, t2).push((fingerprint, t));
    assert(q[q.len() - 1].0 == fingerprint);
}

/// The value that std's `DefaultHasher` gives after hashing a message's uid,
/// text and timestamp in that order.
/// Hash values are not portable across platforms or Rust releases; within
/// one program, equal inputs always give equal values, which is all that is
/// relied on.
pub uninterp spec fn message_fingerprint(uid: u64, message: Seq<char>, timestamp: u64) -> u64;

/// The fingerprint that tells a message relayed twice (by two game clients)
/// from a new one.
///
/// Trusted: hashes `uid`, `message` and `timestamp` in turn with
/// `std::collections::hash_map::DefaultHasher::new()` (fixed keys, so equal
/// inputs give equal hashes) and `finish`; the result is named
/// `message_fingerprint`.
#[verifier::external_body]
pub(crate) fn generate_message_fingerprint(packet: &ChatMessage) -> (r: u64)
    ensures
        r == message_fingerprint(packet.uid, packet.message@, packet.timestamp),
{
    let mut hasher = std::collections::hash_map::DefaultHasher::new();
    packet.uid.hash(&mut hasher);
    packet.message.hash(&mut hasher);
    packet.timestamp.hash(&mut hasher);
    hasher.finish()
}

/// The romanised nicknames learned so far, as (nickname, romaji) pairs.
pub struct NicknameCache {
    entries: Vec<(String, String)>,
}

/// The abstract pairs of a nickname cache.
pub open spec fn name_pairs(e: Seq<(String, String)>) -> Seq<(Seq<char>, Seq<char>)> {
    e.map_values(|p: (String, String)| (p.0@, p.1@))
}

/// The romaji recorded for `name` in `e`, if any.
pub open spec fn romaji_of(e: Seq<(Seq<char>, Seq<char>)>, name: Seq<char>) -> Option<Seq<char>> {
    if exists|i: int| 0 <= i < e.len() && #[trigger] e[i].0 == name {
        Some(e[choose|i: int| 0 <= i < e.len() && #[trigger] e[i].0 == name].1)
    } else {
        None
    }
}

/// Whether no nickname occurs twice in `e`.
pub open spec fn names_unique(e: Seq<(Seq<char>, Seq<char>)>) -> bool {
    forall|i: int, j: int| 0 <= i < j < e.len() ==> #[trigger] e[i].0 != #[trigger] e[j].0
}

impl View for NicknameCache {
    type V = Seq<(Seq<char>, Seq<char>)>;

    closed spec fn view(&self) -> Seq<(Seq<char>, Seq<char>)> {
        name_pairs(self.entries@)
    }
}

impl NicknameCache {
    /// No nickname occurs twice.
    pub open spec fn wf(&self) -> bool {
        names_unique(self@)
    }

    /// An empty cache.
    pub fn new() -> (c: Self)
        ensures
            c.wf(),
            c@ == Seq::<(Seq<char>, Seq<char>)>::empty(),
    {
        let c = NicknameCache { entries: Vec::new() };
        assert(c@ =~= Seq::<(Seq<char>, Seq<char>)>::empty());
        c
    }

    /// The place of `name` in the cache, if it is there.
    fn position(&self, name: &str) -> (r: Option<usize>)
        requires
            self.wf(),
        ensures
            r is Some <==> exists|i: int| 0 <= i < self@.len() && #[trigger] self@[i].0 == name@,
            r is Some ==> r->0 < self@.len() && self@[r->0 as int].0 == name@,
    {
        let mut i: usize = 0;
        while i < self.entries.len()
            invariant
                i <= self.entries@.len(),
                self@.len() == self.entries@.len(),
                forall|k: int| 0 <= k < i ==> #[trigger] self@[k].0 != name@,
            decreases self.entries@.len() - i,
        {
            if same_text(self.entries[i].0.as_str(), name) {
                assert(self@[i as int].0 == name@);
                return Some(i);
            }
            i += 1;
        }
        None
    }

    /// The romaji recorded for `name`, if any.
    pub fn get(&self, name: &str) -> (r: Option<String>)
        requires
            self.wf(),
        ensures
            crate::protocol::types::opt_text(r) == romaji_of(self@, name@),
    {
        match self.position(name) {
            Some(i) => {
                proof {
                    let k = choose|k: int| 0 <= k < self@.len() && #[trigger] self@[k].0 == name@;
                    assert(k == i as int);
                }
                Some(self.entries[i].1.clone())
            },
            None => None,
        }
    }

    /// Records `romaji` for `name`, replacing an earlier one.
    pub fn insert(&mut self, name: String, romaji: String)
        requires
            old(self).wf(),
        ensures
            final(self).wf(),
            romaji_of(final(self)@, name@) == Some(romaji@),
            forall|other: Seq<char>| other != name@ ==> romaji_of(final(self)@, other) == romaji_of(
                old(self)@,
                other,
            ),
    {
        let ghost before = self@;
        let ghost nv = name@;
        let ghost rv = romaji@;
        match self.position(name.as_str()) {
            Some(i) => {
                self.entries.set(i, (name, romaji));
                proof {
                    assert(self@ =~= before.update(i as int, (nv, rv)));
                    assert forall|a: int, b: int| 0 <= a < b < self@.len() implies #[trigger] self@[a].0
                        != #[trigger] self@[b].0 by {
                        assert(before[a].0 != before[b].0);
                    }
                    let k = choose|k: int| 0 <= k < self@.len() && #[trigger] self@[k].0 == nv;
                    assert(self@[i as int].0 == nv);
                    assert(k == i as int);
                    assert forall|other: Seq<char>| other != nv implies romaji_of(self@, other)
                        == romaji_of(before, other) by {
                        if exists|j: int| 0 <= j < before.len() && #[trigger] before[j].0 == other {
                            let j = choose|j: int| 0 <= j < before.len() && #[trigger] before[j].0 == other;
                            assert(self@[j].0 == other);
                            let j2 = choose|j: int| 0 <= j < self@.len() && #[trigger] self@[j].0 == other;
                            assert(j2 == j);
                        } else {
                            assert forall|j: int| 0 <= j < self@.len() implies #[trigger] self@[j].0
                                != other by {
                                if j != i {
                                    assert(self@[j] == before[j]);
                                }
                            }
                        }
                    }
                }
            },
            None => {
                self.entries.push((name, romaji));
                proof {
                    assert(self@ =~= before.push((nv, rv)));
                    let n = before.len() as int;
                    assert(self@[n].0 == nv);
                    let k = choose|k: int| 0 <= k < self@.len() && #[trigger] self@[k].0 == nv;
                    assert(k == n);
                    assert forall|other: Seq<char>| other != nv implies romaji_of(self@, other)
                        == romaji_of(before, other) by {
                        if exists|j: int| 0 <= j < before.len() && #[trigger] before[j].0 == other {
                            let j = choose|j: int| 0 <= j < before.len() && #[trigger] before[j].0 == other;
                            assert(self@[j].0 == other);
                            let j2 = choose|j: int| 0 <= j < self@.len() && #[trigger] self@[j].0 == other;
                            assert(j2 == j);
                        } else {
                            assert forall|j: int| 0 <= j < self@.len() implies #[trigger] self@[j].0
                                != other by {
                                if j < n {
                                    assert(self@[j] == before[j]);
                                }
                            }
                        }
                    }
                }
            },
        }
    }
}

/// `m` with the romaji that `cache` holds for its sender, when it holds one.
pub open spec fn with_romaji(m: ChatMessageView, cache: Seq<(Seq<char>, Seq<char>)>) -> ChatMessageView {
    match romaji_of(cache, m.nickname) {
        Some(r) => ChatMessageView { nickname_romaji: Some(r), ..m },
        None => m,
    }
}

/// The counter value after `pid` is handed out (it wraps around).
pub open spec fn next_counter(pid: u64) -> u64 {
    if pid == u64::MAX {
        0
    } else {
        (pid + 1) as u64
    }
}

/// The system log line for an event.
pub open spec fn system_line(pid: u64, timestamp: u64, level: SystemLogLevel, source: Seq<char>, message: Seq<
    char,
>) -> SystemMessageView {
    SystemMessageView { pid, timestamp, level: level_name(level), source, message }
}

/// The state the backend keeps between events.
pub struct AppState {
    pub chat_history: ChatHistory,
    pub system_history: SystemHistory,
    pub next_pid: u64,
    pub nickname_cache: NicknameCache,
    pub dedupe: DedupeWindow,
    /// The senders whose messages are hidden, with the nickname they were
    /// blocked under.
    pub blocked_users: HashMap<u64, String>,
}

impl AppState {
    /// Each store keeps its own invariant.
    pub open spec fn wf(&self) -> bool {
        self.chat_history.wf() && self.system_history.wf() && self.nickname_cache.wf()
    }

    /// Empty stores; ids start at 1.
    pub fn new() -> (s: Self)
        ensures
            s.wf(),
            s.chat_history@.len() == 0,
            s.system_history@.len() == 0,
            s.nickname_cache@.len() == 0,
            s.dedupe@.len() == 0,
            s.blocked_users@ == Map::<u64, String>::empty(),
            s.next_pid == 1,
    {
        AppState {
            chat_history: ChatHistory::new(),
            system_history: SystemHistory::new(),
            next_pid: 1,
            nickname_cache: NicknameCache::new(),
            dedupe: DedupeWindow::new(),
            blocked_users: HashMap::new(),
        }
    }

    /// Hands out the next id.
    pub fn take_pid(&mut self) -> (r: u64)
        ensures
            r == old(self).next_pid,
            final(self).next_pid == next_counter(old(self).next_pid),
            final(self).chat_history == old(self).chat_history,
            final(self).system_history == old(self).system_history,
            final(self).nickname_cache == old(self).nickname_cache,
            final(self).dedupe == old(self).dedupe,
            final(self).blocked_users@ == old(self).blocked_users@,
    {
        let pid = self.next_pid;
        self.next_pid = if pid == u64::MAX {
            0
        } else {
            pid + 1
        };
        pid
    }
}

/// The history after each of the first `k` messages of `ms` is stored under its pid.
pub open spec fn upserted_all(e: Seq<(u64, ChatMessageView)>, ms: Seq<ChatMessageView>, k: nat) -> Seq<
    (u64, ChatMessageView),
>
    decreases k,
{
    if k == 0 {
        e
    } else {
        let prev = upserted_all(e, ms, (k - 1) as nat);
        upserted(prev, ms[k - 1].pid, ms[k - 1])
    }
}

impl AppState {
    /// Puts restored messages back into the history (each under its pid) and
    /// moves the id counter past `max_pid`.
    pub fn hydrate(&mut self, messages: &Vec<ChatMessage>, max_pid: u64)
        requires
            old(self).wf(),
            max_pid < u64::MAX,
        ensures
            final(self).wf(),
            final(self).chat_history@ == upserted_all(
                old(self).chat_history@,
                messages@.map_values(|m: ChatMessage| m@),
                messages@.len(),
            ),
            final(self).next_pid == max_pid + 1,
            final(self).system_history == old(self).system_history,
            final(self).nickname_cache == old(self).nickname_cache,
            final(self).dedupe == old(self).dedupe,
            final(self).blocked_users@ == old(self).blocked_users@,
    {
        self.next_pid = max_pid + 1;
        let ghost e = self.chat_history@;
        let ghost mv = messages@.map_values(|m: ChatMessage| m@);
        let mut i: usize = 0;
        while i < messages.len()
            invariant
                self.wf(),
                i <= messages@.len(),
                mv == messages@.map_values(|m: ChatMessage| m@),
                self.chat_history@ == upserted_all(e, mv, i as nat),
                self.next_pid == max_pid + 1,
                self.system_history == old(self).system_history,
                self.nickname_cache == old(self).nickname_cache,
                self.dedupe == old(self).dedupe,
                self.blocked_users@ == old(self).blocked_users@,
            decreases messages@.len() - i,
        {
            self.chat_history.insert(messages[i].copy());
            i += 1;
        }
    }

    /// Empties the chat history and the system log.
    pub fn clear_chat_history(&mut self)
        requires
            old(self).wf(),
        ensures
            final(self).wf(),
            final(self).chat_history@.len() == 0,
            final(self).system_history@.len() == 0,
            final(self).nickname_cache == old(self).nickname_cache,
            final(self).dedupe == old(self).dedupe,
            final(self).blocked_users@ == old(self).blocked_users@,
            final(self).next_pid == old(self).next_pid,
    {
        self.chat_history.clear();
        self.system_history.clear();
    }
}

/// Blocks a sender: records `uid` under `nickname`, marks every stored
/// message from it blocked and gives back, in order, those whose mark
/// changed (to be re-emitted).
pub fn block_user(state: &mut AppState, uid: u64, nickname: String) -> (r: Vec<ChatMessage>)
    requires
        old(state).wf(),
    ensures
        final(state).wf(),
        final(state).blocked_users@ == old(state).blocked_users@.insert(uid, nickname),
        final(state).chat_history@ == reblocked(old(state).chat_history@, uid, true),
        r@.map_values(|m: ChatMessage| m@) == changed_messages(old(state).chat_history@, uid, true),
        final(state).system_history == old(state).system_history,
        final(state).nickname_cache == old(state).nickname_cache,
        final(state).dedupe == old(state).dedupe,
        final(state).next_pid == old(state).next_pid,
{
    state.blocked_users.insert(uid, nickname);
    state.chat_history.set_blocked_for_uid(uid, true)
}

/// Unblocks a sender: forgets `uid`, clears the mark of every stored
/// message from it and gives back, in order, those whose mark changed.
pub fn unblock_user(state: &mut AppState, uid: u64) -> (r: Vec<ChatMessage>)
    requires
        old(state).wf(),
    ensures
        final(state).wf(),
        final(state).blocked_users@ == old(state).blocked_users@.remove(uid),
        final(state).chat_history@ == reblocked(old(state).chat_history@, uid, false),
        r@.map_values(|m: ChatMessage| m@) == changed_messages(old(state).chat_history@, uid, false),
        final(state).system_history == old(state).system_history,
        final(state).nickname_cache == old(state).nickname_cache,
        final(state).dedupe == old(state).dedupe,
        final(state).next_pid == old(state).next_pid,
{
    state.blocked_users.remove(&uid);
    state.chat_history.set_blocked_for_uid(uid, false)
}

/// Records a system log line under the next id and gives it back to be emitted.
pub fn inject_system_message(state: &mut AppState, level: SystemLogLevel, source: &str, message: String, timestamp: u64) -> (r:
    SystemMessage)
    requires
        old(state).wf(),
    ensures
        final(state).wf(),
        r@ == system_line(old(state).next_pid, timestamp, level, source@, message@),
        final(state).system_history@ == logged(old(state).system_history@, r@),
        final(state).next_pid == next_counter(old(state).next_pid),
        final(state).chat_history == old(state).chat_history,
        final(state).nickname_cache == old(state).nickname_cache,
        final(state).dedupe == old(state).dedupe,
        final(state).blocked_users@ == old(state).blocked_users@,
{
    let pid = state.take_pid();
    let msg = SystemMessage {
        pid,
        timestamp,
        level: String::from_str(level.as_str()),
        source: String::from_str(source),
        message,
    };
    state.system_history.push(msg.copy());
    msg
}

/// Takes a chat message from the capture: a message that arrived already
/// within the window (the second game client relaying it) is dropped;
/// otherwise it gets its sender's known romaji, is stored in the history
/// (dropping the oldest messages to stay under `chat_limit`) and is given
/// back to be emitted.
pub fn store_and_emit(state: &mut AppState, packet: ChatMessage, now_ms: u64, chat_limit: usize) -> (r: Option<
    ChatMessage,
>)
    requires
        old(state).wf(),
    ensures
        final(state).wf(),
        ({
            let fp = message_fingerprint(packet.uid, packet.message@, packet.timestamp);
            &&& final(state).dedupe@ == after_arrival(old(state).dedupe@, fp, now_ms)
            &&& r is Some <==> admits(old(state).dedupe@, fp, now_ms)
        }),
        r is Some ==> r->0@ == with_romaji(packet@, old(state).nickname_cache@) && final(state).chat_history@
            == upserted(evicted(old(state).chat_history@, chat_limit as nat), packet.pid, r->0@),
        r is None ==> final(state).chat_history == old(state).chat_history,
        final(state).system_history == old(state).system_history,
        final(state).nickname_cache == old(state).nickname_cache,
        final(state).next_pid == old(state).next_pid,
        final(state).blocked_users@ == old(state).blocked_users@,
{
    let mut packet = packet;
    let fingerprint = generate_message_fingerprint(&packet);
    if !state.dedupe.arrive(fingerprint, now_ms) {
        return None;
    }
    if let Some(romaji) = state.nickname_cache.get(packet.nickname.as_str()) {
        packet.nickname_romaji = Some(romaji);
    }
    state.chat_history.store(packet.copy(), chat_limit);
    Some(packet)
}

/// The history holds at most `limit` messages after a store (one when
/// `limit` is zero), and the stored message is in it under its pid.
pub proof fn law_store_bounds_history(e: Seq<(u64, ChatMessageView)>, limit: nat, m: ChatMessageView)
    requires
        keys_unique(e),
    ensures
        upserted(evicted(e, limit), m.pid, m).len() <= if limit == 0 {
            1
        } else {
            limit
        },
        has_key(upserted(evicted(e, limit), m.pid, m), m.pid),
        ({
            let f = upserted(evicted(e, limit), m.pid, m);
            f[key_position(f, m.pid)].1 == m
        }),
{
    let d = evicted(e, limit);
    let f = upserted(d, m.pid, m);
    assert(keys_unique(d));
    if has_key(d, m.pid) {
        let k = key_position(d, m.pid);
        assert(f[k].0 == m.pid);
        let k2 = key_position(f, m.pid);
        assert(f[k2].0 == m.pid);
        if k2 != k {
            assert(d[k2].0 == f[k2].0);
            if k < k2 {
                assert(d[k].0 != d[k2].0);
            } else {
                assert(d[k2].0 != d[k].0);
            }
        }
    } else {
        let n = d.len() as int;
        assert(f[n].0 == m.pid);
        let k2 = key_position(f, m.pid);
        assert(f[k2].0 == m.pid);
        if k2 != n {
            assert(f[k2] == d[k2]);
        }
    }
}

} // verus!
