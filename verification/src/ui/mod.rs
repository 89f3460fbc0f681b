//! The logic of the chat window: what a chat row shows, which messages and
//! log lines are listed, how incoming messages are cleaned and routed to
//! tabs, tab switching, and text tests.

pub mod chat_container;
pub mod chat_row;
pub mod dictionary_editor;
pub mod events;
pub mod nav_bar;
pub mod settings;
pub mod utils;
