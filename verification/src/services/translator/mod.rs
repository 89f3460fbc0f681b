//! Machine translation of chat messages.

pub mod engine;

pub use engine::contains_japanese;

use crate::io::DataFactoryJob;
use crate::protocol::types::{ChatMessage, ChatMessageView, TranslationResult};
use crate::state::{has_key, key_position, AppState};
use vstd::prelude::*;

verus! {

/// A message waiting to be translated.
#[derive(Debug)]
pub struct TranslationJob {
    pub chat: ChatMessage,
}

/// Records the translation of a message and gives what follows from it: the
/// archive entry (original and translation) and the event for the frontend.
pub fn finish_translation(state: &mut AppState, chat: &ChatMessage, translated: String) -> (r: (
    DataFactoryJob,
    TranslationResult,
))
    requires
        old(state).wf(),
    ensures
        final(state).wf(),
        r.0.pid == chat.pid && r.0.original@ == chat.message@ && crate::protocol::types::opt_text(r.0.translated)
            == Some(translated@),
        r.1.pid == chat.pid && r.1.translated@ == translated@,
        has_key(old(state).chat_history@, chat.pid) ==> final(state).chat_history@
            == old(state).chat_history@.update(
            key_position(old(state).chat_history@, chat.pid),
            (
                chat.pid,
                ChatMessageView {
                    translated: Some(translated@),
                    ..old(state).chat_history@[key_position(old(state).chat_history@, chat.pid)].1
                },
            ),
        ),
        !has_key(old(state).chat_history@, chat.pid) ==> final(state).chat_history@
            == old(state).chat_history@,
        final(state).system_history == old(state).system_history,
        final(state).nickname_cache == old(state).nickname_cache,
        final(state).dedupe == old(state).dedupe,
        final(state).blocked_users@ == old(state).blocked_users@,
        final(state).next_pid == old(state).next_pid,
{
    let job = DataFactoryJob {
        pid: chat.pid,
        original: chat.message.clone(),
        translated: Some(translated.clone()),
    };
    state.chat_history.set_translated(chat.pid, translated.clone());
    (job, TranslationResult { pid: chat.pid, translated })
}

} // verus!
