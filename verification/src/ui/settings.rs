//! The settings that the window edits: keyword lists, the font size and the
//! tab-switch shortcut as loaded from the saved configuration.

use crate::text::{same_text, trim_text, trimmed};
use vstd::prelude::*;

verus! {

/// The texts of a keyword list.
pub open spec fn keywords_view(list: Seq<String>) -> Seq<Seq<char>> {
    list.map_values(|k: String| k@)
}

/// The list after the user enters `input`: the input trimmed is added at
/// the end unless it is blank or listed already.
pub open spec fn with_keyword(list: Seq<Seq<char>>, input: Seq<char>) -> Seq<Seq<char>> {
    let kw = trimmed(input);
    if kw.len() == 0 || list.contains(kw) {
        list
    } else {
        list.push(kw)
    }
}

/// Adds a keyword entered by the user (alert or emphasis list): trimmed,
/// and only when it is not blank and not listed already. Says whether the
/// entry was taken (not blank), in which case the input box is cleared.
pub fn add_keyword(list: &mut Vec<String>, input: &str) -> (r: bool)
    ensures
        r == (trimmed(input@).len() > 0),
        keywords_view(final(list)@) == with_keyword(keywords_view(old(list)@), input@),
{
    let kw = trim_text(input);
    if kw.as_str().is_empty() {
        return false;
    }
    let ghost lv = keywords_view(list@);
    let mut i: usize = 0;
    while i < list.len()
        invariant
            i <= list@.len(),
            list@ == old(list)@,
            lv == keywords_view(list@),
            kw@ == trimmed(input@),
            kw@.len() > 0,
            forall|j: int| 0 <= j < i ==> lv[j] != kw@,
        decreases list@.len() - i,
    {
        if same_text(list[i].as_str(), kw.as_str()) {
            assert(lv[i as int] == kw@);
            return true;
        }
        i += 1;
    }
    assert(!lv.contains(kw@));
    let ghost kv = kw@;
    list.push(kw);
    assert(keywords_view(list@) =~= lv.push(kv));
    true
}

/// The list without `kw`.
pub open spec fn without_keyword(list: Seq<Seq<char>>, kw: Seq<char>) -> Seq<Seq<char>>
    decreases list.len(),
{
    if list.len() == 0 {
        list
    } else {
        let prev = without_keyword(list.drop_last(), kw);
        if list.last() == kw {
            prev
        } else {
            prev.push(list.last())
        }
    }
}

/// Removes every occurrence of `kw` from a keyword list, keeping the order
/// of the others.
pub fn remove_keyword(list: &mut Vec<String>, kw: &str)
    ensures
        keywords_view(final(list)@) == without_keyword(keywords_view(old(list)@), kw@),
{
    let ghost lv = keywords_view(list@);
    let mut kept: Vec<String> = Vec::new();
    let mut i: usize = 0;
    while i < list.len()
        invariant
            i <= list@.len(),
            list@ == old(list)@,
            lv == keywords_view(list@),
            keywords_view(kept@) == without_keyword(lv.take(i as int), kw@),
        decreases list@.len() - i,
    {
        assert(lv.take(i + 1).drop_last() == lv.take(i as int));
        assert(lv.take(i + 1).last() == lv[i as int]);
        if !same_text(list[i].as_str(), kw) {
            let k = list[i].clone();
            let ghost before = keywords_view(kept@);
            let ghost k_view = k@;
            assert(k_view == lv[i as int]);
            kept.push(k);
            assert(keywords_view(kept@) =~= before.push(k_view));
        }
        i += 1;
    }
    assert(lv.take(lv.len() as int) == lv);
    *list = kept;
}

/// The font size loaded from the configuration: sizes of 8 and below fall
/// back to 14.
pub open spec fn loaded_font_size_of(saved: u32) -> u32 {
    if saved > 8 {
        saved
    } else {
        14
    }
}

/// The font size to use for a saved one.
pub fn loaded_font_size(saved: u32) -> (r: u32)
    ensures
        r == loaded_font_size_of(saved),
{
    if saved > 8 {
        saved
    } else {
        14
    }
}

/// A saved shortcut setting, or its default when none was saved.
pub open spec fn setting_or_default(saved: Seq<char>, default: Seq<char>) -> Seq<char> {
    if saved.len() == 0 {
        default
    } else {
        saved
    }
}

/// The tab-switch modifier to use: "Ctrl" when none was saved.
pub fn tab_switch_modifier(saved: &str) -> (r: String)
    ensures
        r@ == setting_or_default(saved@, "Ctrl"@),
{
    if saved.is_empty() {
        String::from_str("Ctrl")
    } else {
        String::from_str(saved)
    }
}

/// The tab-switch key to use: "Tab" when none was saved.
pub fn tab_switch_key(saved: &str) -> (r: String)
    ensures
        r@ == setting_or_default(saved@, "Tab"@),
{
    if saved.is_empty() {
        String::from_str("Tab")
    } else {
        String::from_str(saved)
    }
}

} // verus!
