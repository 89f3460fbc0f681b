//! Shared data types of the chat protocol.

use vstd::prelude::*;

verus! {

/// The block of a chat packet in which an unrecognised field was found.
#[derive(Clone, Copy, Debug, PartialEq, Eq, Structural)]
pub enum FieldSection {
    /// The chat payload itself (`chat_<tag>`).
    Chat,
    /// The sender block (`sender_<tag>`).
    Sender,
    /// The message block (`msg_<tag>`).
    Msg,
    /// The rich-content array (`rich_<tag>`).
    Rich,
    /// A rich-content chunk (`chunk_<tag>`).
    Chunk,
}

/// An unrecognised field: where it was found, its tag byte and its raw bytes.
#[derive(Clone, Debug)]
pub struct UnknownField {
    pub section: FieldSection,
    pub tag: u8,
    pub bytes: Vec<u8>,
}

/// Unrecognised fields keyed by section and tag. Entries are kept in the
/// order they were recorded; a later entry for the same key replaces an
/// earlier one, as an insertion into a map does.
#[derive(Clone, Debug)]
pub struct UnknownFields {
    pub entries: Vec<UnknownField>,
}

/// The map that a sequence of recorded entries stands for.
pub open spec fn unknown_map(entries: Seq<UnknownField>) -> Map<(FieldSection, u8), Seq<u8>>
    decreases entries.len(),
{
    if entries.len() == 0 {
        Map::empty()
    } else {
        unknown_map(entries.drop_last()).insert(
            (entries.last().section, entries.last().tag),
            entries.last().bytes@,
        )
    }
}

impl View for UnknownFields {
    type V = Map<(FieldSection, u8), Seq<u8>>;

    open spec fn view(&self) -> Map<(FieldSection, u8), Seq<u8>> {
        unknown_map(self.entries@)
    }
}

pub proof fn lemma_unknown_map_append(a: Seq<UnknownField>, b: Seq<UnknownField>)
    ensures
        unknown_map(a + b) == unknown_map(a).union_prefer_right(unknown_map(b)),
    decreases b.len(),
{
    if b.len() == 0 {
        assert(a + b == a);
        assert(unknown_map(a).union_prefer_right(unknown_map(b)) =~= unknown_map(a));
    } else {
        lemma_unknown_map_append(a, b.drop_last());
        assert((a + b).drop_last() == a + b.drop_last());
        assert((a + b).last() == b.last());
        assert(unknown_map(a + b) =~= unknown_map(a).union_prefer_right(unknown_map(b)));
    }
}

pub proof fn lemma_unknown_map_update(e: Seq<UnknownField>, k: int, x: UnknownField)
    requires
        0 <= k < e.len(),
        (e[k].section, e[k].tag) == (x.section, x.tag),
        forall|j: int| k < j < e.len() ==> (#[trigger] e[j].section, e[j].tag) != (x.section, x.tag),
    ensures
        unknown_map(e.update(k, x)) == unknown_map(e).insert((x.section, x.tag), x.bytes@),
    decreases e.len(),
{
    let u = e.update(k, x);
    if k == e.len() - 1 {
        assert(u.drop_last() == e.drop_last());
        assert(unknown_map(u) =~= unknown_map(e).insert((x.section, x.tag), x.bytes@));
    } else {
        lemma_unknown_map_update(e.drop_last(), k, x);
        assert(u.drop_last() == e.drop_last().update(k, x));
        assert(u.last() == e.last());
        assert((e.last().section, e.last().tag) != (x.section, x.tag));
        assert(unknown_map(u) =~= unknown_map(e).insert((x.section, x.tag), x.bytes@));
    }
}

/// A copy of a byte vector.
fn slice_copy(v: &Vec<u8>) -> (r: Vec<u8>)
    ensures
        r@ == v@,
{
    let mut out: Vec<u8> = Vec::new();
    let mut i: usize = 0;
    while i < v.len()
        invariant
            i <= v@.len(),
            out@ == v@.take(i as int),
        decreases v@.len() - i,
    {
        out.push(v[i]);
        i += 1;
        assert(out@ =~= v@.take(i as int));
    }
    out
}

pub proof fn lemma_unknown_map_empty(entries: Seq<UnknownField>)
    ensures
        (entries.len() == 0) <==> (unknown_map(entries) =~= Map::empty()),
{
    if entries.len() > 0 {
        let k = (entries.last().section, entries.last().tag);
        assert(unknown_map(entries).contains_key(k));
    }
}

impl UnknownFields {
    /// An empty set of unknown fields.
    pub fn new() -> (r: Self)
        ensures
            r@ == Map::<(FieldSection, u8), Seq<u8>>::empty(),
    {
        UnknownFields { entries: Vec::new() }
    }

    /// Records the bytes of an unrecognised field, replacing in place any
    /// earlier bytes recorded under the same section and tag.
    pub fn insert(&mut self, section: FieldSection, tag: u8, bytes: Vec<u8>)
        ensures
            final(self)@ == old(self)@.insert((section, tag), bytes@),
    {
        let ghost prev = self.entries@;
        let mut i = self.entries.len();
        while i > 0
            invariant
                i <= prev.len(),
                prev == old(self).entries@,
                self.entries@ == prev,
                forall|j: int| i <= j < prev.len() ==> (#[trigger] prev[j].section, prev[j].tag) != (section, tag),
            decreases i,
        {
            if self.entries[i - 1].section == section && self.entries[i - 1].tag == tag {
                let field = UnknownField { section, tag, bytes };
                let ghost fv = field;
                self.entries.set(i - 1, field);
                proof {
                    assert(prev[i - 1].section == section && prev[i - 1].tag == tag);
                    assert(self.entries@ == prev.update(i - 1, fv));
                    lemma_unknown_map_update(prev, i - 1, fv);
                    assert(self@ == unknown_map(prev.update(i - 1, fv)));
                }
                return;
            }
            i -= 1;
        }
        self.entries.push(UnknownField { section, tag, bytes });
        assert(self.entries@.drop_last() == prev);
    }

    /// Records every entry of `other` into `self`; entries of `other` win.
    pub fn extend(&mut self, other: UnknownFields)
        ensures
            final(self)@ == old(self)@.union_prefer_right(other@),
    {
        let ghost start = self@;
        let ghost b = other.entries@;
        let mut k: usize = 0;
        while k < other.entries.len()
            invariant
                b == other.entries@,
                k <= b.len(),
                self@ == start.union_prefer_right(unknown_map(b.take(k as int))),
            decreases b.len() - k,
        {
            let e = &other.entries[k];
            let bytes = slice_copy(&e.bytes);
            let ghost before = self@;
            self.insert(e.section, e.tag, bytes);
            proof {
                assert(b.take(k + 1).drop_last() == b.take(k as int));
                assert(b.take(k + 1).last() == b[k as int]);
                assert(self@ =~= start.union_prefer_right(unknown_map(b.take(k + 1))));
            }
            k += 1;
        }
        assert(b.take(b.len() as int) == b);
    }

    /// True when no field has been recorded.
    pub fn is_empty(&self) -> (r: bool)
        ensures
            r == (self@ =~= Map::<(FieldSection, u8), Seq<u8>>::empty()),
    {
        proof {
            lemma_unknown_map_empty(self.entries@);
        }
        self.entries.len() == 0
    }
}

} // verus!

verus! {

/// The view of an optional text.
pub open spec fn opt_text(s: Option<String>) -> Option<Seq<char>> {
    match s {
        Some(t) => Some(t@),
        None => None,
    }
}

/// A copy of an optional text.
pub fn copy_opt_text(s: &Option<String>) -> (r: Option<String>)
    ensures
        opt_text(r) == opt_text(*s),
{
    match s {
        Some(t) => Some(t.clone()),
        None => None,
    }
}

/// A game chat message as the backend stores and emits it.
#[derive(Debug)]
pub struct ChatMessage {
    pub pid: u64,
    pub channel: String,
    pub nickname: String,
    pub message: String,
    pub timestamp: u64,
    pub uid: u64,
    pub class_id: u64,
    pub level: u64,
    pub sequence_id: u64,
    pub is_blocked: bool,
    pub translated: Option<String>,
    pub nickname_romaji: Option<String>,
    pub unknown_fields: UnknownFields,
}

/// The abstract value of a [`ChatMessage`].
pub struct ChatMessageView {
    pub pid: u64,
    pub channel: Seq<char>,
    pub nickname: Seq<char>,
    pub message: Seq<char>,
    pub timestamp: u64,
    pub uid: u64,
    pub class_id: u64,
    pub level: u64,
    pub sequence_id: u64,
    pub is_blocked: bool,
    pub translated: Option<Seq<char>>,
    pub nickname_romaji: Option<Seq<char>>,
    pub unknown_fields: Map<(FieldSection, u8), Seq<u8>>,
}

impl ChatMessageView {
    /// All numbers zero, texts empty, no translation, nothing unknown.
    pub open spec fn empty() -> ChatMessageView {
        ChatMessageView {
            pid: 0,
            channel: Seq::empty(),
            nickname: Seq::empty(),
            message: Seq::empty(),
            timestamp: 0,
            uid: 0,
            class_id: 0,
            level: 0,
            sequence_id: 0,
            is_blocked: false,
            translated: None,
            nickname_romaji: None,
            unknown_fields: Map::empty(),
        }
    }
}

impl View for ChatMessage {
    type V = ChatMessageView;

    open spec fn view(&self) -> ChatMessageView {
        ChatMessageView {
            pid: self.pid,
            channel: self.channel@,
            nickname: self.nickname@,
            message: self.message@,
            timestamp: self.timestamp,
            uid: self.uid,
            class_id: self.class_id,
            level: self.level,
            sequence_id: self.sequence_id,
            is_blocked: self.is_blocked,
            translated: opt_text(self.translated),
            nickname_romaji: opt_text(self.nickname_romaji),
            unknown_fields: self.unknown_fields@,
        }
    }
}

impl Default for ChatMessage {
    fn default() -> (r: Self)
        ensures
            r@ == ChatMessageView::empty(),
    {
        ChatMessage {
            pid: 0,
            channel: String::new(),
            nickname: String::new(),
            message: String::new(),
            timestamp: 0,
            uid: 0,
            class_id: 0,
            level: 0,
            sequence_id: 0,
            is_blocked: false,
            translated: None,
            nickname_romaji: None,
            unknown_fields: UnknownFields::new(),
        }
    }
}

impl UnknownFields {
    /// A copy with the same entries.
    pub fn copy(&self) -> (r: Self)
        ensures
            r.entries@.len() == self.entries@.len(),
            r@ == self@,
    {
        let mut out: Vec<UnknownField> = Vec::new();
        let mut i: usize = 0;
        while i < self.entries.len()
            invariant
                i <= self.entries@.len(),
                out@.len() == i,
                forall|j: int|
                    0 <= j < i ==> {
                        &&& #[trigger] out@[j].section == self.entries@[j].section
                        &&& out@[j].tag == self.entries@[j].tag
                        &&& out@[j].bytes@ == self.entries@[j].bytes@
                    },
            decreases self.entries@.len() - i,
        {
            let e = &self.entries[i];
            out.push(
                UnknownField {
                    section: e.section,
                    tag: e.tag,
                    bytes: vstd::slice::slice_to_vec(e.bytes.as_slice()),
                },
            );
            i = i + 1;
        }
        proof {
            lemma_unknown_map_same(out@, self.entries@);
        }
        UnknownFields { entries: out }
    }
}

/// Entry sequences that agree on every key and value stand for the same map.
pub proof fn lemma_unknown_map_same(a: Seq<UnknownField>, b: Seq<UnknownField>)
    requires
        a.len() == b.len(),
        forall|j: int|
            0 <= j < a.len() ==> {
                &&& #[trigger] a[j].section == b[j].section
                &&& a[j].tag == b[j].tag
                &&& a[j].bytes@ == b[j].bytes@
            },
    ensures
        unknown_map(a) == unknown_map(b),
    decreases a.len(),
{
    if a.len() > 0 {
        assert(a[a.len() - 1].section == b[b.len() - 1].section);
        lemma_unknown_map_same(a.drop_last(), b.drop_last());
    }
}

impl ChatMessage {
    /// A field-by-field copy.
    pub fn copy(&self) -> (r: Self)
        ensures
            r@ == self@,
    {
        ChatMessage {
            pid: self.pid,
            channel: self.channel.clone(),
            nickname: self.nickname.clone(),
            message: self.message.clone(),
            timestamp: self.timestamp,
            uid: self.uid,
            class_id: self.class_id,
            level: self.level,
            sequence_id: self.sequence_id,
            is_blocked: self.is_blocked,
            translated: copy_opt_text(&self.translated),
            nickname_romaji: copy_opt_text(&self.nickname_romaji),
            unknown_fields: self.unknown_fields.copy(),
        }
    }
}

} // verus!

verus! {

/// A log line of the backend, shown in the System tab.
#[derive(Debug)]
pub struct SystemMessage {
    pub pid: u64,
    pub timestamp: u64,
    pub level: String,
    pub source: String,
    pub message: String,
}

/// The abstract value of a [`SystemMessage`].
pub struct SystemMessageView {
    pub pid: u64,
    pub timestamp: u64,
    pub level: Seq<char>,
    pub source: Seq<char>,
    pub message: Seq<char>,
}

impl View for SystemMessage {
    type V = SystemMessageView;

    open spec fn view(&self) -> SystemMessageView {
        SystemMessageView {
            pid: self.pid,
            timestamp: self.timestamp,
            level: self.level@,
            source: self.source@,
            message: self.message@,
        }
    }
}

impl SystemMessage {
    /// A field-by-field copy.
    pub fn copy(&self) -> (r: Self)
        ensures
            r@ == self@,
    {
        SystemMessage {
            pid: self.pid,
            timestamp: self.timestamp,
            level: self.level.clone(),
            source: self.source.clone(),
            message: self.message.clone(),
        }
    }
}

/// The severity of a system log line.
#[derive(Clone, Copy, Debug, PartialEq, Eq, Structural)]
pub enum SystemLogLevel {
    Info,
    Warning,
    Error,
    Success,
    Debug,
    Trace,
}

/// The name of a log level that the frontend expects.
pub open spec fn level_name(level: SystemLogLevel) -> Seq<char> {
    match level {
        SystemLogLevel::Info => "info"@,
        SystemLogLevel::Warning => "warn"@,
        SystemLogLevel::Error => "error"@,
        SystemLogLevel::Success => "success"@,
        SystemLogLevel::Debug => "debug"@,
        SystemLogLevel::Trace => "trace"@,
    }
}

impl SystemLogLevel {
    /// The name of the level that the frontend expects.
    pub fn as_str(&self) -> (r: &'static str)
        ensures
            r@ == level_name(*self),
    {
        match self {
            SystemLogLevel::Info => "info",
            SystemLogLevel::Warning => "warn",
            SystemLogLevel::Error => "error",
            SystemLogLevel::Success => "success",
            SystemLogLevel::Debug => "debug",
            SystemLogLevel::Trace => "trace",
        }
    }
}

/// A request to translate one message.
#[derive(Debug)]
pub struct MessageRequest {
    pub cmd: String,
    pub pid: u64,
    pub text: String,
}

/// A request to romanise one nickname.
#[derive(Debug)]
pub struct NicknameRequest {
    pub cmd: String,
    pub pid: u64,
    pub nickname: String,
}

/// The romanisation of a nickname.
#[derive(Debug)]
pub struct NicknameResponse {
    pub pid: u64,
    pub nickname: String,
    pub romaji: String,
}

/// The translation of one message.
#[derive(Debug)]
pub struct MessageResponse {
    pub pid: u64,
    pub translated: String,
}

/// A request to translate several messages at once.
#[derive(Debug)]
pub struct BatchMessageRequest {
    pub cmd: String,
    pub messages: Vec<MessageRequest>,
}

/// The translation of one message of a batch.
#[derive(Debug)]
pub struct TranslationResult {
    pub pid: u64,
    pub translated: String,
}

/// The translations of a batch.
#[derive(Debug)]
pub struct BatchMessageResponse {
    pub msg_type: String,
    pub results: Vec<TranslationResult>,
}

/// A chat line to export to a text file.
#[derive(Debug)]
pub struct ExportMessage {
    pub channel: String,
    pub nickname: String,
    pub message: String,
    pub translated: Option<String>,
    pub timestamp: u64,
}

/// A network adapter and its IPv4 address.
#[derive(Debug)]
pub struct NetworkInterface {
    pub name: String,
    pub ip: String,
}

/// The state of the sniffer shown by the frontend.
#[derive(Debug)]
pub struct SnifferStatePayload {
    pub state: String,
    pub message: String,
}

/// The state of the translator shown by the frontend.
#[derive(Debug)]
pub struct TranslatorStatePayload {
    pub state: String,
    pub message: String,
}

} // verus!
