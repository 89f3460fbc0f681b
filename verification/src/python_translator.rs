//! The Python translator sidecar: batching of translation requests and the
//! decisions taken on its output.

use crate::protocol::types::{
    MessageRequest, MessageResponse, NicknameRequest, NicknameResponse, SystemLogLevel,
    TranslationResult,
};
use crate::state::{has_key, key_position, romaji_of, AppState, ChatHistory, NicknameCache};
use crate::text::{contains_text, has_substring, same_text};
use vstd::prelude::*;

verus! {

/// Whether the sidecar starts: only when translation is enabled in the
/// settings; otherwise the log line that says it was skipped.
pub fn sidecar_startup(use_translation: bool) -> (r: Option<String>)
    ensures
        use_translation <==> r is None,
        r matches Some(m) ==> m@ == "Translation is disabled in settings. Skipping startup."@,
{
    if use_translation {
        None
    } else {
        Some(String::from_str("Translation is disabled in settings. Skipping startup."))
    }
}

/// A batch is sent as soon as it holds this many messages.
pub const BATCH_SIZE: usize = 5;

/// A batch that has waited this long (in milliseconds) since its last message
/// is sent by the watchdog.
pub const BATCH_TIMEOUT_MS: u64 = 1000;

/// The abstract value of a translation request: (command, pid, text).
pub open spec fn request_view(m: MessageRequest) -> (Seq<char>, u64, Seq<char>) {
    (m.cmd@, m.pid, m.text@)
}

/// The abstract values of a list of requests.
pub open spec fn requests_view(ms: Seq<MessageRequest>) -> Seq<(Seq<char>, u64, Seq<char>)> {
    ms.map_values(|m: MessageRequest| request_view(m))
}

/// The messages waiting to be translated and the time of the last one.
pub struct BatchBuffer {
    pub pending: Vec<MessageRequest>,
    pub last_activity: u64,
}

impl BatchBuffer {
    /// Fewer than [`BATCH_SIZE`] messages wait.
    pub open spec fn wf(&self) -> bool {
        self.pending@.len() < BATCH_SIZE
    }

    /// An empty buffer.
    pub fn new() -> (b: Self)
        ensures
            b.wf(),
            b.pending@.len() == 0,
            b.last_activity == 0,
    {
        BatchBuffer { pending: Vec::new(), last_activity: 0 }
    }

    /// Buffers a message to translate, received at `now_ms`. When the buffer
    /// reaches [`BATCH_SIZE`] messages they are all taken out and returned to
    /// be sent; otherwise the watchdog's timer restarts.
    pub fn buffer_message(&mut self, pid: u64, text: String, now_ms: u64) -> (r: Option<Vec<MessageRequest>>)
        requires
            old(self).wf(),
        ensures
            final(self).wf(),
            ({
                let added = requests_view(old(self).pending@).push(("translate"@, pid, text@));
                if added.len() >= BATCH_SIZE {
                    &&& r is Some
                    &&& requests_view(r->0@) == added
                    &&& final(self).pending@.len() == 0
                    &&& final(self).last_activity == 0
                } else {
                    &&& r is None
                    &&& requests_view(final(self).pending@) == added
                    &&& final(self).last_activity == now_ms
                }
            }),
    {
        let ghost before = requests_view(self.pending@);
        let ghost tv = text@;
        self.pending.push(MessageRequest { cmd: String::from_str("translate"), pid, text });
        proof {
            assert(requests_view(self.pending@) =~= before.push(("translate"@, pid, tv)));
        }
        self.last_activity = now_ms;
        if self.pending.len() >= BATCH_SIZE {
            let mut batch: Vec<MessageRequest> = Vec::new();
            std::mem::swap(&mut batch, &mut self.pending);
            self.last_activity = 0;
            assert(requests_view(self.pending@) =~= Seq::empty());
            Some(batch)
        } else {
            None
        }
    }

    /// How long the watchdog waits from `now_ms` before the batch is stale:
    /// the timeout less the time since the last message (never negative).
    pub fn watchdog_wait_ms(&self, now_ms: u64) -> (r: u64)
        ensures
            r == if now_ms <= self.last_activity {
                BATCH_TIMEOUT_MS as int
            } else if now_ms - self.last_activity >= BATCH_TIMEOUT_MS {
                0
            } else {
                BATCH_TIMEOUT_MS - (now_ms - self.last_activity)
            },
    {
        let elapsed = now_ms.saturating_sub(self.last_activity);
        BATCH_TIMEOUT_MS.saturating_sub(elapsed)
    }

    /// When the watchdog's wait ran out: takes out the waiting messages, if
    /// there are any, to be sent.
    pub fn flush_stale(&mut self) -> (r: Option<Vec<MessageRequest>>)
        requires
            old(self).wf(),
        ensures
            final(self).wf(),
            old(self).pending@.len() > 0 ==> r is Some && r->0@ == old(self).pending@
                && final(self).pending@.len() == 0 && final(self).last_activity == 0,
            old(self).pending@.len() == 0 ==> r is None && final(self).pending@ == old(self).pending@
                && final(self).last_activity == old(self).last_activity,
    {
        if self.pending.len() == 0 {
            return None;
        }
        let mut batch: Vec<MessageRequest> = Vec::new();
        std::mem::swap(&mut batch, &mut self.pending);
        self.last_activity = 0;
        Some(batch)
    }
}

/// The sidecar command for a batch: translating and saving to the dataset,
/// or translating only.
pub fn batch_command(save_to_dataset: bool) -> (r: &'static str)
    ensures
        r@ == if save_to_dataset {
            "translate_and_save"@
        } else {
            "batch_translate"@
        },
{
    if save_to_dataset {
        "translate_and_save"
    } else {
        "batch_translate"
    }
}

/// What a line of the sidecar's standard output is, by its "type" field.
#[derive(Clone, Copy, Debug, PartialEq, Eq, Structural)]
pub enum SidecarLine {
    Info,
    Error,
    Result,
    BatchResult,
    Debug,
    Unknown,
}

/// The kind of a sidecar output line with the given "type".
pub open spec fn sidecar_line_kind(t: Option<Seq<char>>) -> SidecarLine {
    match t {
        Some(s) => if s == "info"@ || s == "status"@ {
            SidecarLine::Info
        } else if s == "error"@ {
            SidecarLine::Error
        } else if s == "result"@ {
            SidecarLine::Result
        } else if s == "batch_result"@ {
            SidecarLine::BatchResult
        } else if s == "debug"@ {
            SidecarLine::Debug
        } else {
            SidecarLine::Unknown
        },
        None => SidecarLine::Unknown,
    }
}

/// Classifies a sidecar output line by its "type" field.
pub fn classify_sidecar_line(msg_type: Option<&str>) -> (r: SidecarLine)
    ensures
        r == sidecar_line_kind(
            match msg_type {
                Some(s) => Some(s@),
                None => None,
            },
        ),
{
    match msg_type {
        Some(t) => {
            if same_text(t, "info") || same_text(t, "status") {
                SidecarLine::Info
            } else if same_text(t, "error") {
                SidecarLine::Error
            } else if same_text(t, "result") {
                SidecarLine::Result
            } else if same_text(t, "batch_result") {
                SidecarLine::BatchResult
            } else if same_text(t, "debug") {
                SidecarLine::Debug
            } else {
                SidecarLine::Unknown
            }
        },
        None => SidecarLine::Unknown,
    }
}

/// The system log text for what the sidecar wrote to standard error.
pub open spec fn stderr_report(err: Seq<char>) -> Seq<char> {
    if has_substring(err, "ImportError: DLL load failed"@) {
        "Missing Visual C++ Redistributable."@
    } else if has_substring(err, "CUDA error: out of memory"@) {
        "GPU Memory Out. Try lowering the Tier."@
    } else {
        "Crash: "@ + err
    }
}

/// Explains an error output of the sidecar: a missing runtime library, GPU
/// memory exhausted, or otherwise a crash with its text.
pub fn sidecar_stderr_message(err: &str) -> (r: String)
    ensures
        r@ == stderr_report(err@),
{
    if contains_text(err, "ImportError: DLL load failed") {
        String::from_str("Missing Visual C++ Redistributable.")
    } else if contains_text(err, "CUDA error: out of memory") {
        String::from_str("GPU Memory Out. Try lowering the Tier.")
    } else {
        let mut s = String::from_str("Crash: ");
        s.append(err);
        s
    }
}

/// Answers a nickname request from the cache when it can (`Ok` with the
/// response to emit), or gives the request to send to the sidecar (`Err`).
pub fn translate_nickname(cache: &NicknameCache, pid: u64, nickname: String) -> (r: Result<
    NicknameResponse,
    NicknameRequest,
>)
    requires
        cache.wf(),
    ensures
        match romaji_of(cache@, nickname@) {
            Some(romaji) => r matches Ok(resp) && resp.pid == pid && resp.nickname@ == nickname@
                && resp.romaji@ == romaji,
            None => r matches Err(req) && req.cmd@ == "nickname_only"@ && req.pid == pid
                && req.nickname@ == nickname@,
        },
{
    match cache.get(nickname.as_str()) {
        Some(romaji) => Ok(NicknameResponse { pid, nickname, romaji }),
        None => Err(NicknameRequest { cmd: String::from_str("nickname_only"), pid, nickname }),
    }
}

/// Records a romanised nickname from the sidecar: when the message it was
/// asked for is in the history, its sender's nickname gets the romaji.
pub fn apply_nickname_response(state: &mut AppState, resp: &NicknameResponse)
    requires
        old(state).wf(),
    ensures
        final(state).wf(),
        final(state).chat_history == old(state).chat_history,
        final(state).system_history == old(state).system_history,
        final(state).dedupe == old(state).dedupe,
        final(state).blocked_users@ == old(state).blocked_users@,
        final(state).next_pid == old(state).next_pid,
        ({
            let e = old(state).chat_history@;
            if has_key(e, resp.pid) {
                let name = e[key_position(e, resp.pid)].1.nickname;
                &&& romaji_of(final(state).nickname_cache@, name) == Some(resp.romaji@)
                &&& forall|other: Seq<char>| other != name ==> romaji_of(final(state).nickname_cache@, other)
                    == romaji_of(old(state).nickname_cache@, other)
            } else {
                final(state).nickname_cache == old(state).nickname_cache
            }
        }),
{
    if let Some(packet) = state.chat_history.get(resp.pid) {
        state.nickname_cache.insert(packet.nickname, resp.romaji.clone());
    }
}

/// Records the translation of one message from the sidecar.
pub fn apply_message_response(state: &mut AppState, resp: &MessageResponse)
    requires
        old(state).wf(),
    ensures
        final(state).wf(),
        has_key(old(state).chat_history@, resp.pid) ==> final(state).chat_history@
            == old(state).chat_history@.update(
            key_position(old(state).chat_history@, resp.pid),
            (
                resp.pid,
                crate::protocol::types::ChatMessageView {
                    translated: Some(resp.translated@),
                    ..old(state).chat_history@[key_position(old(state).chat_history@, resp.pid)].1
                },
            ),
        ),
        !has_key(old(state).chat_history@, resp.pid) ==> final(state).chat_history@
            == old(state).chat_history@,
        final(state).system_history == old(state).system_history,
        final(state).nickname_cache == old(state).nickname_cache,
        final(state).dedupe == old(state).dedupe,
        final(state).blocked_users@ == old(state).blocked_users@,
        final(state).next_pid == old(state).next_pid,
{
    state.chat_history.set_translated(resp.pid, resp.translated.clone());
}

/// A translated message of a batch with its original text, when the history
/// still holds it: (pid, original, translation).
pub open spec fn archived_result(e: Seq<(u64, crate::protocol::types::ChatMessageView)>, r: TranslationResult) -> Option<
    (u64, Seq<char>, Seq<char>),
> {
    if has_key(e, r.pid) {
        Some((r.pid, e[key_position(e, r.pid)].1.message, r.translated@))
    } else {
        None
    }
}

/// For each result of a batch, the entry to save to the dataset (`None`
/// when the history no longer holds the message).
pub fn batch_archive_entries(history: &ChatHistory, results: &Vec<TranslationResult>) -> (r: Vec<
    Option<(u64, String, String)>,
>)
    ensures
        r@.len() == results@.len(),
        forall|i: int|
            0 <= i < r@.len() ==> match (#[trigger] r@[i], archived_result(history@, results@[i])) {
                (Some((p, o, t)), Some((p2, o2, t2))) => p == p2 && o@ == o2 && t@ == t2,
                (None, None) => true,
                _ => false,
            },
{
    let mut out: Vec<Option<(u64, String, String)>> = Vec::new();
    let mut i: usize = 0;
    while i < results.len()
        invariant
            i <= results@.len(),
            out@.len() == i,
            forall|j: int|
                0 <= j < i ==> match (#[trigger] out@[j], archived_result(history@, results@[j])) {
                    (Some((p, o, t)), Some((p2, o2, t2))) => p == p2 && o@ == o2 && t@ == t2,
                    (None, None) => true,
                    _ => false,
                },
        decreases results@.len() - i,
    {
        let res = &results[i];
        match history.get(res.pid) {
            Some(original) => {
                out.push(Some((res.pid, original.message, res.translated.clone())));
            },
            None => {
                out.push(None);
            },
        }
        i += 1;
    }
    out
}

} // verus!
