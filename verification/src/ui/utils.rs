//! Small text tests of the frontend.

use crate::services::translator::engine::has_japanese;
use vstd::prelude::*;

verus! {

/// Whether a text holds Hiragana, Katakana or Kanji (the frontend's test,
/// the same as the backend's).
pub fn is_japanese(text: &str) -> (r: bool)
    ensures
        r == has_japanese(text@),
{
    crate::services::translator::engine::contains_japanese(text)
}

} // verus!
