//! The translation request and the Japanese-text test.

use crate::text::{lower_text, lowercase_text, same_text, trim_text, trimmed};
use vstd::prelude::*;

verus! {

/// Whether `c` is Hiragana, Katakana or a CJK unified ideograph (Kanji).
pub open spec fn japanese_char(c: char) -> bool {
    let u = c as u32;
    (0x3040 <= u <= 0x309F) || (0x30A0 <= u <= 0x30FF) || (0x4E00 <= u <= 0x9FAF)
}

/// Whether some character of `s` is Japanese.
pub open spec fn has_japanese(s: Seq<char>) -> bool {
    exists|i: int| 0 <= i < s.len() && japanese_char(#[trigger] s[i])
}

/// Whether some character of `text` is Hiragana, Katakana or Kanji.
pub fn contains_japanese(text: &str) -> (r: bool)
    ensures
        r == has_japanese(text@),
{
    let chars = crate::text::chars_of(text);
    let mut i: usize = 0;
    while i < chars.len()
        invariant
            chars@ == text@,
            i <= chars.len(),
            forall|k: int| 0 <= k < i ==> !japanese_char(#[trigger] chars@[k]),
        decreases chars.len() - i,
    {
        let u = chars[i] as u32;
        if (0x3040 <= u && u <= 0x309F) || (0x30A0 <= u && u <= 0x30FF) || (0x4E00 <= u && u <= 0x9FAF) {
            assert(japanese_char(chars@[i as int]));
            return true;
        }
        i += 1;
    }
    false
}

/// The local llama.cpp server.
pub const AI_SERVER_URL: &'static str = "http://127.0.0.1:8080";

/// The part of the prompt before the Japanese text (the format the model was
/// fine-tuned on).
pub open spec fn prompt_head() -> Seq<char> {
    "<bos><start_of_turn>user\nYou are a professional Japanese (ja) to Korean (ko) translator. Your goal is to accurately convey the meaning and nuances of the original Japanese text while adhering to Korean grammar, vocabulary, and cultural sensitivities.\nProduce only the Korean translation, without any additional explanations or commentary. Please translate the following Japanese text into Korean:\n"@
}

/// The part of the prompt after the Japanese text.
pub open spec fn prompt_tail() -> Seq<char> {
    "<end_of_turn>\n<start_of_turn>model\n"@
}

/// The completion prompt that asks the model to translate `jp_text`.
pub fn build_prompt(jp_text: &str) -> (r: String)
    ensures
        r@ == prompt_head() + jp_text@ + prompt_tail(),
{
    let mut p = String::from_str(
        "<bos><start_of_turn>user\nYou are a professional Japanese (ja) to Korean (ko) translator. Your goal is to accurately convey the meaning and nuances of the original Japanese text while adhering to Korean grammar, vocabulary, and cultural sensitivities.\nProduce only the Korean translation, without any additional explanations or commentary. Please translate the following Japanese text into Korean:\n",
    );
    p.append(jp_text);
    p.append("<end_of_turn>\n<start_of_turn>model\n");
    p
}

/// The `choices[0].message.content` string of a chat-completions reply body:
/// `None` when the body is not JSON or has no string there.
pub uninterp spec fn completion_content(body: Seq<char>) -> Option<Seq<char>>;

/// Reads the message content of a chat-completions reply.
///
/// Trusted: parses with `serde_json::from_str` into a `serde_json::Value` and
/// takes `["choices"][0]["message"]["content"].as_str()`; the result is named
/// `completion_content`.
#[verifier::external_body]
fn parse_completion(body: &str) -> (r: Option<String>)
    ensures
        crate::protocol::types::opt_text(r) == completion_content(body@),
{
    let json: serde_json::Value = serde_json::from_str(body).ok()?;
    json["choices"][0]["message"]["content"].as_str().map(|t| t.to_string())
}

/// The translation that a completion reply's content gives: the content
/// trimmed, or an error marker when there is none.
pub open spec fn content_translation(content: Option<Seq<char>>) -> Seq<char> {
    match content {
        Some(c) => trimmed(c),
        None => "[AI Server Parsing Error]"@,
    }
}

/// The translation that a completion reply gives: its content trimmed, an
/// error marker when the server could not be reached (`None`) or the reply
/// has no content.
pub open spec fn reply_translation(body: Option<Seq<char>>) -> Seq<char> {
    match body {
        None => "[AI Server Connection Error]"@,
        Some(b) => content_translation(completion_content(b)),
    }
}

/// Turns the message content of a completion reply (`None` when the reply
/// has none) into the translation.
pub fn translation_from_content(content: Option<String>) -> (r: String)
    ensures
        r@ == content_translation(crate::protocol::types::opt_text(content)),
{
    match content {
        Some(c) => trim_text(c.as_str()),
        None => String::from_str("[AI Server Parsing Error]"),
    }
}

/// Turns the body of the completion reply (`None` when the request failed)
/// into the translation.
pub fn translation_from_reply(body: Option<&str>) -> (r: String)
    ensures
        r@ == reply_translation(
            match body {
                Some(b) => Some(b@),
                None => None,
            },
        ),
{
    match body {
        None => String::from_str("[AI Server Connection Error]"),
        Some(b) => translation_from_content(parse_completion(b)),
    }
}

/// The performance tiers put more layers on the GPU the higher they are:
/// low 12, middle 24, high 32, very high 99 (every layer), 24 for a tier it
/// does not know; CPU mode puts none there. Names compare lower-cased.
pub proof fn law_gpu_tiers(compute_mode: Seq<char>, tier: Seq<char>)
    ensures
        lower_text(compute_mode) != "gpu"@ ==> gpu_layer_count(compute_mode, tier) == "0"@,
        lower_text(compute_mode) == "gpu"@ ==> gpu_layer_count(compute_mode, tier) == (if lower_text(tier) == "low"@ {
            "12"@
        } else if lower_text(tier) == "middle"@ {
            "24"@
        } else if lower_text(tier) == "high"@ {
            "32"@
        } else if lower_text(tier) == "very high"@ {
            "99"@
        } else {
            "24"@
        }),
{
}

/// The number of model layers the server puts on the GPU: by tier in GPU
/// mode (24 for an unknown tier), none in CPU mode.
pub open spec fn gpu_layer_count(compute_mode: Seq<char>, tier: Seq<char>) -> Seq<char> {
    if lower_text(compute_mode) == "gpu"@ {
        let t = lower_text(tier);
        if t == "low"@ {
            "12"@
        } else if t == "middle"@ {
            "24"@
        } else if t == "high"@ {
            "32"@
        } else if t == "very high"@ {
            "99"@
        } else {
            "24"@
        }
    } else {
        "0"@
    }
}

/// The `-ngl` argument of the AI server for the configured device and tier.
pub fn gpu_layers(compute_mode: &str, tier: &str) -> (r: &'static str)
    ensures
        r@ == gpu_layer_count(compute_mode@, tier@),
{
    let mode = lowercase_text(compute_mode);
    if same_text(mode.as_str(), "gpu") {
        let t = lowercase_text(tier);
        if same_text(t.as_str(), "low") {
            "12"
        } else if same_text(t.as_str(), "middle") {
            "24"
        } else if same_text(t.as_str(), "high") {
            "32"
        } else if same_text(t.as_str(), "very high") {
            "99"
        } else {
            "24"
        }
    } else {
        "0"
    }
}

/// The AI server is given this many seconds to become healthy.
pub const HEALTH_WAIT_SECS: u64 = 30;

/// What the start-up health check does next.
#[derive(Clone, Copy, Debug, PartialEq, Eq, Structural)]
pub enum HealthStep {
    /// The server answered: it is ready.
    Ready,
    /// Wait a second and poll again.
    Retry,
    /// The wait is over: the server failed to start.
    GiveUp,
}

/// The next step of the health check, `elapsed_secs` into the wait, given
/// whether the last poll succeeded.
pub fn next_health_step(elapsed_secs: u64, polled_ok: bool) -> (r: HealthStep)
    ensures
        elapsed_secs >= HEALTH_WAIT_SECS ==> r == HealthStep::GiveUp,
        elapsed_secs < HEALTH_WAIT_SECS && polled_ok ==> r == HealthStep::Ready,
        elapsed_secs < HEALTH_WAIT_SECS && !polled_ok ==> r == HealthStep::Retry,
{
    if elapsed_secs >= HEALTH_WAIT_SECS {
        HealthStep::GiveUp
    } else if polled_ok {
        HealthStep::Ready
    } else {
        HealthStep::Retry
    }
}

} // verus!
