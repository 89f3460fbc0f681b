//! The text of a chat export.

use crate::protocol::types::{opt_text, ExportMessage};
use vstd::prelude::*;

verus! {

/// The first line of an export made at `now` (already formatted).
pub open spec fn export_header_text(now: Seq<char>) -> Seq<char> {
    "=== BPSR Translator Chat Export ("@ + now + ") ==="@
}

/// The first line of an export made at `now` (already formatted).
pub fn export_header(now: &str) -> (r: String)
    ensures
        r@ == export_header_text(now@),
{
    let mut s = String::from_str("=== BPSR Translator Chat Export (");
    s.append(now);
    s.append(") ===");
    s
}

/// The line that separates the header from the messages.
pub fn export_separator() -> (r: &'static str)
    ensures
        r@ == "--------------------------------------------------"@,
{
    "--------------------------------------------------"
}

/// The export line of a message sent at `time` (already formatted):
/// "[time] [channel] nickname: message", then " -> translation" when there is one.
pub open spec fn export_line_text(time: Seq<char>, channel: Seq<char>, nickname: Seq<char>, message: Seq<char>, translated: Option<
    Seq<char>,
>) -> Seq<char> {
    "["@ + time + "] ["@ + channel + "] "@ + nickname + ": "@ + message + match translated {
        Some(t) => " -> "@ + t,
        None => Seq::empty(),
    }
}

/// The export line of a message sent at `time` (already formatted).
pub fn export_line(time: &str, log: &ExportMessage) -> (r: String)
    ensures
        r@ == export_line_text(time@, log.channel@, log.nickname@, log.message@, opt_text(log.translated)),
{
    let mut s = String::from_str("[");
    s.append(time);
    s.append("] [");
    s.append(log.channel.as_str());
    s.append("] ");
    s.append(log.nickname.as_str());
    s.append(": ");
    s.append(log.message.as_str());
    let ghost before = s@;
    match &log.translated {
        Some(t) => {
            s.append(" -> ");
            s.append(t.as_str());
        },
        None => {
            assert(before + Seq::<char>::empty() =~= before);
        },
    }
    s
}

} // verus!
