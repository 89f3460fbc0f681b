//! Downloads and update checks of the model, the AI server and the dictionary.

pub mod gist;
pub mod integrity;
pub mod updater;

use crate::text::same_text;
use vstd::prelude::*;

verus! {

/// Whether a downloaded model is present, and where.
#[derive(Debug)]
pub struct ModelStatus {
    pub exists: bool,
    pub path: String,
}

/// Whether a folder or file is present, and where.
#[derive(Debug)]
pub struct FolderStatus {
    pub exists: bool,
    pub path: String,
}

/// The progress of a download.
#[derive(Debug)]
pub struct ProgressPayload {
    pub current_file: String,
    pub percent: u8,
    pub total_percent: u8,
}

/// A download-progress event as the window receives it.
#[derive(Debug)]
pub struct TauriEvent {
    pub payload: ProgressPayload,
}

/// Whether `ignored` names exactly `version`.
pub open spec fn is_ignored(ignored: Option<Seq<char>>, version: Seq<char>) -> bool {
    ignored == Some(version)
}

/// Whether a release is an update to offer: it differs from what is
/// installed and the user did not ignore it.
pub open spec fn offers_update(latest: Seq<char>, installed: Seq<char>, ignored: Option<Seq<char>>) -> bool {
    latest != installed && !is_ignored(ignored, latest)
}

/// Whether a release is an update to offer: it differs from what is
/// installed and the user did not ignore it.
pub fn should_offer_update(latest: &String, installed: &str, ignored: &Option<String>) -> (r: bool)
    ensures
        r == offers_update(latest@, installed@, crate::protocol::types::opt_text(*ignored)),
{
    let mut available = !same_text(latest.as_str(), installed);
    if let Some(ig) = ignored {
        if same_text(ig.as_str(), latest.as_str()) {
            available = false;
        }
    }
    available
}

/// A character in ASCII lower case (others unchanged).
pub open spec fn ascii_lower(c: char) -> char {
    if 'A' <= c && c <= 'Z' {
        ((c as u32) + 32) as char
    } else {
        c
    }
}

/// Whether two texts are equal when ASCII letters are compared without case.
pub open spec fn same_ignoring_ascii_case(a: Seq<char>, b: Seq<char>) -> bool {
    a.len() == b.len() && forall|i: int| 0 <= i < a.len() ==> ascii_lower(#[trigger] a[i]) == ascii_lower(b[i])
}

/// Whether a local file's hash matches the published one, hex digits
/// compared without case.
pub fn hash_matches(local_hash: &str, expected_hash: &str) -> (r: bool)
    ensures
        r == same_ignoring_ascii_case(local_hash@, expected_hash@),
{
    let a = crate::text::chars_of(local_hash);
    let b = crate::text::chars_of(expected_hash);
    if a.len() != b.len() {
        return false;
    }
    let mut i: usize = 0;
    while i < a.len()
        invariant
            a@ == local_hash@,
            b@ == expected_hash@,
            a@.len() == b@.len(),
            i <= a@.len(),
            forall|j: int| 0 <= j < i ==> ascii_lower(#[trigger] a@[j]) == ascii_lower(b@[j]),
        decreases a@.len() - i,
    {
        let x = a[i];
        let y = b[i];
        let lx = if 'A' <= x && x <= 'Z' {
            ((x as u32) + 32) as u8 as char
        } else {
            x
        };
        let ly = if 'A' <= y && y <= 'Z' {
            ((y as u32) + 32) as u8 as char
        } else {
            y
        };
        if lx != ly {
            return false;
        }
        i += 1;
    }
    true
}

/// Whether `serde_json::from_str` accepts `doc` as a JSON value.
pub uninterp spec fn json_valid(doc: Seq<char>) -> bool;

/// The "version" string of a JSON document: `None` when it is not JSON or
/// has no string there.
pub uninterp spec fn json_version(doc: Seq<char>) -> Option<Seq<char>>;

/// Whether a text parses as JSON.
///
/// Trusted: calls `serde_json::from_str::<serde_json::Value>` and says
/// whether it returned `Ok`; the result is named `json_valid`.
#[verifier::external_body]
fn json_is_valid(doc: &str) -> (r: bool)
    ensures
        r == json_valid(doc@),
{
    serde_json::from_str::<serde_json::Value>(doc).is_ok()
}

/// Reads the "version" string of a JSON document.
///
/// Trusted: calls `serde_json::from_str::<serde_json::Value>` and takes
/// `["version"].as_str()`; the result is named `json_version`.
#[verifier::external_body]
fn read_json_version(doc: &str) -> (r: Option<String>)
    ensures
        crate::protocol::types::opt_text(r) == json_version(doc@),
{
    let json: serde_json::Value = serde_json::from_str(doc).ok()?;
    json["version"].as_str().map(|v| v.to_string())
}

/// The version a dictionary document states, "0.0.0" when it states none
/// (or is not JSON).
pub open spec fn dict_version(doc: Seq<char>) -> Seq<char> {
    match json_version(doc) {
        Some(v) => v,
        None => "0.0.0"@,
    }
}

/// Whether the published dictionary should be downloaded: `None` when the
/// published document is not JSON; otherwise true when there is no local
/// dictionary, else whether the two versions differ.
pub open spec fn dict_update_decision(remote_doc: Seq<char>, local_doc: Option<Seq<char>>) -> Option<bool> {
    if !json_valid(remote_doc) {
        None
    } else {
        match local_doc {
            None => Some(true),
            Some(l) => Some(dict_version(remote_doc) != dict_version(l)),
        }
    }
}

/// The version a dictionary document states, "0.0.0" when it states none.
pub fn dictionary_version(doc: &str) -> (r: String)
    ensures
        r@ == dict_version(doc@),
{
    proof {
        reveal_strlit("0.0.0");
    }
    match read_json_version(doc) {
        Some(v) => v,
        None => String::from_str("0.0.0"),
    }
}

/// Whether the published dictionary (`remote_doc`) should replace the local
/// one (`local_doc`, `None` when there is no local file): `None` when the
/// published document is not JSON.
pub fn dict_update_needed(remote_doc: &str, local_doc: Option<&str>) -> (r: Option<bool>)
    ensures
        r == dict_update_decision(remote_doc@, match local_doc {
            Some(l) => Some(l@),
            None => None,
        }),
        r is None <==> !json_valid(remote_doc@),
{
    if !json_is_valid(remote_doc) {
        return None;
    }
    match local_doc {
        None => Some(true),
        Some(l) => {
            let remote_version = dictionary_version(remote_doc);
            let local_version = dictionary_version(l);
            Some(!same_text(remote_version.as_str(), local_version.as_str()))
        },
    }
}

/// Whether a downloaded dictionary is valid JSON, and so may be saved.
pub fn dictionary_payload_valid(body: &str) -> (r: bool)
    ensures
        r == json_valid(body@),
{
    json_is_valid(body)
}

} // verus!
