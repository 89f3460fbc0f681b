//! Which chat messages and system log lines the chat window lists.

use crate::protocol::types::{SystemMessage, SystemMessageView};
use crate::text::{contains_text, has_substring, lower_text, lowercase_text, same_text};
use crate::ui::events::{in_filters, tab_channel, visible_in};
use vstd::prelude::*;

verus! {

/// The rank of a log level, from trace (0) to error (4); unknown levels
/// rank as info.
pub open spec fn level_rank_of(level: Seq<char>) -> u8 {
    if level == "trace"@ {
        0
    } else if level == "debug"@ {
        1
    } else if level == "warn"@ {
        3
    } else if level == "error"@ {
        4
    } else {
        2
    }
}

/// Log levels rank by severity: trace 0, debug 1, warn 3, error 4, and any
/// other level (info, success, unknown names) 2; so the backend's levels
/// order trace < debug < info = success < warning < error.
pub proof fn law_level_severity(level: Seq<char>)
    ensures
        level == "trace"@ ==> level_rank_of(level) == 0,
        level == "debug"@ ==> level_rank_of(level) == 1,
        level == "warn"@ ==> level_rank_of(level) == 3,
        level == "error"@ ==> level_rank_of(level) == 4,
        level != "trace"@ && level != "debug"@ && level != "warn"@ && level != "error"@ ==> level_rank_of(level) == 2,
        level_rank_of(crate::protocol::types::level_name(crate::protocol::types::SystemLogLevel::Trace))
            < level_rank_of(crate::protocol::types::level_name(crate::protocol::types::SystemLogLevel::Debug)),
        level_rank_of(crate::protocol::types::level_name(crate::protocol::types::SystemLogLevel::Debug))
            < level_rank_of(crate::protocol::types::level_name(crate::protocol::types::SystemLogLevel::Info)),
        level_rank_of(crate::protocol::types::level_name(crate::protocol::types::SystemLogLevel::Info))
            == level_rank_of(crate::protocol::types::level_name(crate::protocol::types::SystemLogLevel::Success)),
        level_rank_of(crate::protocol::types::level_name(crate::protocol::types::SystemLogLevel::Info))
            < level_rank_of(crate::protocol::types::level_name(crate::protocol::types::SystemLogLevel::Warning)),
        level_rank_of(crate::protocol::types::level_name(crate::protocol::types::SystemLogLevel::Warning))
            < level_rank_of(crate::protocol::types::level_name(crate::protocol::types::SystemLogLevel::Error)),
{
    reveal_strlit("trace");
    reveal_strlit("debug");
    reveal_strlit("warn");
    reveal_strlit("error");
    reveal_strlit("info");
    reveal_strlit("success");
    assert("trace"@[0] != "debug"@[0] && "trace"@[0] != "warn"@[0] && "trace"@[0] != "error"@[0]);
    assert("debug"@[0] != "warn"@[0] && "debug"@[0] != "error"@[0] && "warn"@[0] != "error"@[0]);
    assert("info"@[0] != "trace"@[0] && "info"@[0] != "debug"@[0] && "info"@[0] != "warn"@[0] && "info"@[0] != "error"@[0]);
    assert("success"@[0] != "trace"@[0] && "success"@[0] != "debug"@[0] && "success"@[0] != "warn"@[0] && "success"@[0] != "error"@[0]);
}

/// The rank of a log level.
pub fn level_rank(level: &str) -> (r: u8)
    ensures
        r == level_rank_of(level@),
{
    if same_text(level, "trace") {
        0
    } else if same_text(level, "debug") {
        1
    } else if same_text(level, "warn") {
        3
    } else if same_text(level, "error") {
        4
    } else {
        2
    }
}

/// Whether the system tab lists a log line: its level ranks at least as high
/// as the configured log level, it matches the chosen level and source (when
/// chosen), and its text holds the search (lower-cased both) when there is one.
pub open spec fn shows_line(
    m: SystemMessageView,
    log_level: Seq<char>,
    level_filter: Option<Seq<char>>,
    source_filter: Option<Seq<char>>,
    search: Seq<char>,
) -> bool {
    let s = lower_text(search);
    &&& level_rank_of(m.level) >= level_rank_of(log_level)
    &&& (level_filter matches Some(f) ==> m.level == f)
    &&& (source_filter matches Some(f) ==> m.source == f)
    &&& (s.len() == 0 || has_substring(lower_text(m.message), s))
}

/// Whether the system tab lists a log line.
pub fn shows_system_line(
    m: &SystemMessage,
    log_level: &str,
    level_filter: Option<&str>,
    source_filter: Option<&str>,
    search: &str,
) -> (r: bool)
    ensures
        r == shows_line(
            m@,
            log_level@,
            match level_filter {
                Some(f) => Some(f@),
                None => None,
            },
            match source_filter {
                Some(f) => Some(f@),
                None => None,
            },
            search@,
        ),
{
    let s = lowercase_text(search);
    if level_rank(m.level.as_str()) < level_rank(log_level) {
        return false;
    }
    if let Some(f) = level_filter {
        if !same_text(m.level.as_str(), f) {
            return false;
        }
    }
    if let Some(f) = source_filter {
        if !same_text(m.source.as_str(), f) {
            return false;
        }
    }
    if s.as_str().is_empty() {
        true
    } else {
        let text = lowercase_text(m.message.as_str());
        contains_text(text.as_str(), s.as_str())
    }
}

/// Whether the chat lists a message of `channel` in the active tab, for the
/// search (lower-cased; matched against the nickname or the text,
/// lower-cased too); the system tab lists none.
pub open spec fn shows_message(
    active_tab: Seq<char>,
    filters: Seq<Seq<char>>,
    search: Seq<char>,
    channel: Seq<char>,
    nickname: Seq<char>,
    message: Seq<char>,
) -> bool {
    let s = lower_text(search);
    &&& visible_in(active_tab, channel, filters)
    &&& (s.len() == 0 || has_substring(lower_text(nickname), s) || has_substring(lower_text(message), s))
}

/// Whether the chat lists a message in the active tab for the search.
pub fn shows_chat_message(
    active_tab: &str,
    filters: &Vec<String>,
    search: &str,
    channel: &str,
    nickname: &str,
    message: &str,
) -> (r: bool)
    ensures
        r == shows_message(
            active_tab@,
            filters@.map_values(|f: String| f@),
            search@,
            channel@,
            nickname@,
            message@,
        ),
{
    if !crate::ui::events::is_visible(active_tab, channel, filters) {
        return false;
    }
    let s = lowercase_text(search);
    if s.as_str().is_empty() {
        return true;
    }
    let n = lowercase_text(nickname);
    if contains_text(n.as_str(), s.as_str()) {
        return true;
    }
    let m = lowercase_text(message);
    contains_text(m.as_str(), s.as_str())
}

/// The positions of the listed messages that are drawn: the last `limit`.
pub open spec fn page_start(total: nat, limit: nat) -> nat {
    if total > limit {
        (total - limit) as nat
    } else {
        0
    }
}

/// Where the drawn part of a list of `total` messages starts, when only the
/// newest `limit` are drawn.
pub fn window_start(total: usize, limit: usize) -> (r: usize)
    ensures
        r == page_start(total as nat, limit as nat),
{
    if total > limit {
        total - limit
    } else {
        0
    }
}

} // verus!
