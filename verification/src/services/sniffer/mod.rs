//! Turning captured network packets into chat messages.

pub mod message_processor;
pub mod network;
pub mod pipeline;
pub mod stream_tracker;

use crate::io::DataFactoryJob;
use crate::protocol::types::{ChatMessage, ChatMessageView};
use crate::services::processor::{convert_to_romaji, romaji_name};
use crate::services::sniffer::pipeline::PipelineAction;
use crate::services::translator::engine::{contains_japanese, has_japanese};
use crate::state::{
    admits, after_arrival, evicted, has_key, key_position, message_fingerprint, romaji_of,
    store_and_emit, upserted, with_romaji, AppState,
};
use vstd::prelude::*;

verus! {

/// What the backend does in answer to a pipeline action.
#[derive(Debug)]
pub enum DispatchEffect {
    /// Emit "chat-message-update" with the changed message.
    EmitMessageUpdate(ChatMessage),
    /// Emit "packet-event" with a new stored message.
    EmitPacket(ChatMessage),
    /// Queue the message for translation.
    SendTranslationJob(ChatMessage),
    /// Queue the message, untranslated, for the chat archive.
    SendArchiveJob(DataFactoryJob),
}

/// The abstract value of a [`DispatchEffect`].
pub enum EffectView {
    Update(ChatMessageView),
    Packet(ChatMessageView),
    Translate(ChatMessageView),
    Archive(u64, Seq<char>),
}

/// The abstract value of an effect.
pub open spec fn effect_view(e: DispatchEffect) -> EffectView {
    match e {
        DispatchEffect::EmitMessageUpdate(m) => EffectView::Update(m@),
        DispatchEffect::EmitPacket(m) => EffectView::Packet(m@),
        DispatchEffect::SendTranslationJob(m) => EffectView::Translate(m@),
        DispatchEffect::SendArchiveJob(j) => EffectView::Archive(j.pid, j.original@),
    }
}

/// The abstract values of a list of effects.
pub open spec fn effects_view(es: Seq<DispatchEffect>) -> Seq<EffectView> {
    es.map_values(|e: DispatchEffect| effect_view(e))
}

/// A new message with its sender's romaji: a Japanese nickname takes the
/// cached romaji, or a fresh transliteration when none is cached.
pub open spec fn romanized(m: ChatMessageView, cache: Seq<(Seq<char>, Seq<char>)>) -> ChatMessageView {
    if has_japanese(m.nickname) {
        let r = match romaji_of(cache, m.nickname) {
            Some(r) => r,
            None => romaji_name(m.nickname),
        };
        ChatMessageView { nickname_romaji: Some(r), ..m }
    } else {
        m
    }
}

/// The job that follows a new message: translation when it is on and the
/// text is Japanese, else archiving when that is on.
pub open spec fn follow_up(m: ChatMessageView, use_translation: bool, archive_chat: bool) -> Seq<EffectView> {
    if use_translation && has_japanese(m.message) {
        seq![EffectView::Translate(m)]
    } else if archive_chat {
        seq![EffectView::Archive(m.pid, m.message)]
    } else {
        Seq::empty()
    }
}

/// Carries out one pipeline action on the backend state and lists what to
/// emit and queue: a newly blocked message is marked and re-emitted; a new
/// message gets its romaji, goes through the duplicate window and the
/// history, and is queued for translation or archiving.
pub fn dispatch_pipeline_action(
    state: &mut AppState,
    action: PipelineAction,
    use_translation: bool,
    archive_chat: bool,
    chat_limit: usize,
    now_ms: u64,
) -> (r: Vec<DispatchEffect>)
    requires
        old(state).wf(),
    ensures
        final(state).wf(),
        final(state).system_history == old(state).system_history,
        final(state).next_pid == old(state).next_pid,
        match action {
            PipelineAction::UpdateBlockedMessage(c) => {
                let e = old(state).chat_history@;
                let k = key_position(e, c.pid);
                &&& final(state).nickname_cache == old(state).nickname_cache
                &&& final(state).dedupe == old(state).dedupe
                &&& final(state).blocked_users@ == old(state).blocked_users@
                &&& if has_key(e, c.pid) && !e[k].1.is_blocked {
                    let m = ChatMessageView { is_blocked: true, ..e[k].1 };
                    &&& final(state).chat_history@ == e.update(k, (c.pid, m))
                    &&& effects_view(r@) == seq![EffectView::Update(m)]
                } else {
                    &&& final(state).chat_history@ == e
                    &&& r@.len() == 0
                }
            },
            PipelineAction::EmitNewMessage(c) => {
                let chat = romanized(c@, old(state).nickname_cache@);
                let fp = message_fingerprint(c.uid, c.message@, c.timestamp);
                let stored = with_romaji(chat, final(state).nickname_cache@);
                &&& has_japanese(c.nickname@) ==> romaji_of(final(state).nickname_cache@, c.nickname@)
                    == chat.nickname_romaji
                &&& !has_japanese(c.nickname@) ==> final(state).nickname_cache == old(state).nickname_cache
                &&& forall|other: Seq<char>| other != c.nickname@ ==> romaji_of(final(state).nickname_cache@, other)
                    == romaji_of(old(state).nickname_cache@, other)
                &&& final(state).dedupe@ == after_arrival(old(state).dedupe@, fp, now_ms)
                &&& if admits(old(state).dedupe@, fp, now_ms) {
                    &&& final(state).chat_history@ == upserted(
                        evicted(old(state).chat_history@, chat_limit as nat),
                        c.pid,
                        stored,
                    )
                    &&& effects_view(r@) == seq![EffectView::Packet(stored)] + follow_up(chat, use_translation, archive_chat)
                } else {
                    &&& final(state).chat_history == old(state).chat_history
                    &&& effects_view(r@) == follow_up(chat, use_translation, archive_chat)
                }
            },
        },
{
    let mut effects: Vec<DispatchEffect> = Vec::new();
    match action {
        PipelineAction::UpdateBlockedMessage(chat) => {
            if let Some(m) = state.chat_history.mark_blocked(chat.pid) {
                effects.push(DispatchEffect::EmitMessageUpdate(m));
            }
            proof {
                assert(effects_view(effects@) =~= if effects@.len() == 0 {
                    Seq::<EffectView>::empty()
                } else {
                    seq![effect_view(effects@[0])]
                });
            }
        },
        PipelineAction::EmitNewMessage(chat) => {
            let mut chat = chat;
            let ghost c0 = chat@;
            if contains_japanese(chat.nickname.as_str()) {
                let romaji = match state.nickname_cache.get(chat.nickname.as_str()) {
                    Some(r) => r,
                    None => {
                        let r = convert_to_romaji(chat.nickname.as_str());
                        state.nickname_cache.insert(chat.nickname.clone(), r.clone());
                        r
                    },
                };
                chat.nickname_romaji = Some(romaji);
            }
            assert(chat@ == romanized(c0, old(state).nickname_cache@));
            let message_is_japanese = contains_japanese(chat.message.as_str());
            let job = if use_translation && message_is_japanese {
                Some(DispatchEffect::SendTranslationJob(chat.copy()))
            } else if archive_chat {
                Some(
                    DispatchEffect::SendArchiveJob(
                        DataFactoryJob { pid: chat.pid, original: chat.message.clone(), translated: None },
                    ),
                )
            } else {
                None
            };
            let ghost before = effects@;
            if let Some(stored) = store_and_emit(state, chat, now_ms, chat_limit) {
                effects.push(DispatchEffect::EmitPacket(stored));
            }
            let ghost mid = effects@;
            if let Some(j) = job {
                effects.push(j);
            }
            proof {
                let f = follow_up(romanized(c0, old(state).nickname_cache@), use_translation, archive_chat);
                assert(effects_view(mid + (effects@.skip(mid.len() as int))) == effects_view(effects@)) by {
                    assert(mid + effects@.skip(mid.len() as int) =~= effects@);
                }
                assert(effects_view(effects@.skip(mid.len() as int)) =~= f);
                assert(effects_view(effects@) =~= effects_view(mid) + f);
            }
        },
    }
    effects
}

/// Whether the capture is running: a second start is refused while it is.
pub struct SnifferGuard {
    running: bool,
}

impl View for SnifferGuard {
    type V = bool;

    closed spec fn view(&self) -> bool {
        self.running
    }
}

impl SnifferGuard {
    /// No capture running.
    pub fn new() -> (r: Self)
        ensures
            !r@,
    {
        SnifferGuard { running: false }
    }

    /// Asks to start the capture: granted (and the capture counts as
    /// running) unless it runs already, in which case the restart is
    /// blocked and nothing changes.
    pub fn try_start(&mut self) -> (r: bool)
        ensures
            r == !old(self)@,
            final(self)@,
    {
        if self.running {
            false
        } else {
            self.running = true;
            true
        }
    }

    /// Records that the capture has stopped, so that it may start again.
    pub fn stopped(&mut self)
        ensures
            !final(self)@,
    {
        self.running = false;
    }
}

} // verus!
