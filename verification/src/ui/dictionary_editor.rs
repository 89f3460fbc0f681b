//! Editing the words of one category of the custom dictionary: adding,
//! deleting, and committing an inline edit of a key or a value.

use crate::text::{same_text, trim_text, trimmed};
use vstd::prelude::*;

verus! {

/// The (key, value) texts of a category's words.
pub open spec fn words_view(words: Seq<(String, String)>) -> Seq<(Seq<char>, Seq<char>)> {
    words.map_values(|p: (String, String)| (p.0@, p.1@))
}

/// The position of the first word with key `key`.
pub open spec fn key_index(e: Seq<(Seq<char>, Seq<char>)>, key: Seq<char>) -> Option<int>
    decreases e.len(),
{
    if e.len() == 0 {
        None
    } else {
        match key_index(e.drop_last(), key) {
            Some(i) => Some(i),
            None => if e.last().0 == key {
                Some(e.len() - 1)
            } else {
                None
            },
        }
    }
}

pub proof fn lemma_key_index(e: Seq<(Seq<char>, Seq<char>)>, key: Seq<char>)
    ensures
        match key_index(e, key) {
            Some(i) => 0 <= i < e.len() && e[i].0 == key && forall|j: int| 0 <= j < i ==> #[trigger] e[j].0 != key,
            None => forall|j: int| 0 <= j < e.len() ==> #[trigger] e[j].0 != key,
        },
    decreases e.len(),
{
    if e.len() > 0 {
        lemma_key_index(e.drop_last(), key);
        match key_index(e.drop_last(), key) {
            Some(i) => {
                assert forall|j: int| 0 <= j < i implies #[trigger] e[j].0 != key by {
                    assert(e[j] == e.drop_last()[j]);
                }
            },
            None => {
                assert forall|j: int| 0 <= j < e.len() - 1 implies #[trigger] e[j].0 != key by {
                    assert(e[j] == e.drop_last()[j]);
                }
            },
        }
    }
}

/// The words with `key` set to `value`: the first word with that key gets
/// the value, or the pair is added at the end.
pub open spec fn with_entry(e: Seq<(Seq<char>, Seq<char>)>, key: Seq<char>, value: Seq<char>) -> Seq<(Seq<char>, Seq<char>)> {
    match key_index(e, key) {
        Some(i) => e.update(i, (key, value)),
        None => e.push((key, value)),
    }
}

/// The words without any word keyed `key`.
pub open spec fn without_entry(e: Seq<(Seq<char>, Seq<char>)>, key: Seq<char>) -> Seq<(Seq<char>, Seq<char>)>
    decreases e.len(),
{
    if e.len() == 0 {
        e
    } else {
        let prev = without_entry(e.drop_last(), key);
        if e.last().0 == key {
            prev
        } else {
            prev.push(e.last())
        }
    }
}

/// Whether no key occurs twice among the words (the dictionary keeps each
/// category in a map by key).
pub open spec fn word_keys_unique(e: Seq<(Seq<char>, Seq<char>)>) -> bool {
    forall|i: int, j: int| 0 <= i < j < e.len() ==> #[trigger] e[i].0 != #[trigger] e[j].0
}

/// Setting a key keeps the keys unique.
pub proof fn lemma_with_entry_unique(e: Seq<(Seq<char>, Seq<char>)>, key: Seq<char>, value: Seq<char>)
    requires
        word_keys_unique(e),
    ensures
        word_keys_unique(with_entry(e, key, value)),
{
    lemma_key_index(e, key);
    let r = with_entry(e, key, value);
    match key_index(e, key) {
        Some(k) => {
            assert forall|i: int, j: int| 0 <= i < j < r.len() implies #[trigger] r[i].0 != #[trigger] r[j].0 by {
                assert(r[i].0 == e[i].0 && r[j].0 == e[j].0);
            }
        },
        None => {
            assert forall|i: int, j: int| 0 <= i < j < r.len() implies #[trigger] r[i].0 != #[trigger] r[j].0 by {
                if j == e.len() {
                    assert(r[i] == e[i]);
                } else {
                    assert(r[i] == e[i] && r[j] == e[j]);
                }
            }
        },
    }
}

/// Deleting a key leaves only words of the old list, none keyed `key`, and
/// keeps the keys unique.
pub proof fn lemma_without_entry(e: Seq<(Seq<char>, Seq<char>)>, key: Seq<char>)
    ensures
        forall|j: int| 0 <= j < without_entry(e, key).len() ==> e.contains(#[trigger] without_entry(e, key)[j]),
        forall|j: int| 0 <= j < without_entry(e, key).len() ==> #[trigger] without_entry(e, key)[j].0 != key,
        word_keys_unique(e) ==> word_keys_unique(without_entry(e, key)),
    decreases e.len(),
{
    if e.len() > 0 {
        let d = e.drop_last();
        lemma_without_entry(d, key);
        let prev = without_entry(d, key);
        let w = without_entry(e, key);
        assert forall|j: int| 0 <= j < prev.len() implies e.contains(#[trigger] prev[j]) by {
            let i = choose|i: int| 0 <= i < d.len() && d[i] == prev[j];
            assert(e[i] == prev[j]);
        }
        if e.last().0 != key {
            assert(w == prev.push(e.last()));
            assert(e.contains(e.last())) by {
                assert(e[e.len() - 1] == e.last());
            }
            assert forall|j: int| 0 <= j < w.len() implies e.contains(#[trigger] w[j]) by {
                if j < prev.len() {
                    assert(w[j] == prev[j]);
                }
            }
            if word_keys_unique(e) {
                assert(word_keys_unique(d)) by {
                    assert forall|i: int, j: int| 0 <= i < j < d.len() implies #[trigger] d[i].0 != #[trigger] d[j].0 by {
                        assert(d[i] == e[i] && d[j] == e[j]);
                    }
                }
                assert forall|i: int, j: int| 0 <= i < j < w.len() implies #[trigger] w[i].0 != #[trigger] w[j].0 by {
                    if j == prev.len() {
                        let k = choose|k: int| 0 <= k < d.len() && d[k] == prev[i];
                        assert(e[k] == prev[i]);
                        assert(w[i] == prev[i]);
                        assert(w[j] == e[e.len() - 1]);
                    } else {
                        assert(w[i] == prev[i] && w[j] == prev[j]);
                    }
                }
            }
        } else {
            if word_keys_unique(e) {
                assert forall|i: int, j: int| 0 <= i < j < d.len() implies #[trigger] d[i].0 != #[trigger] d[j].0 by {
                    assert(d[i] == e[i] && d[j] == e[j]);
                }
            }
        }
    }
}

/// The position of the first word keyed `key`, if any.
fn find_key(words: &Vec<(String, String)>, key: &str) -> (r: Option<usize>)
    ensures
        match r {
            Some(i) => key_index(words_view(words@), key@) == Some(i as int),
            None => key_index(words_view(words@), key@) is None,
        },
{
    let ghost e = words_view(words@);
    proof {
        lemma_key_index(e, key@);
    }
    let mut i: usize = 0;
    while i < words.len()
        invariant
            i <= words@.len(),
            e == words_view(words@),
            forall|j: int| 0 <= j < i ==> #[trigger] e[j].0 != key@,
            match key_index(e, key@) {
                Some(k) => 0 <= k < e.len() && e[k].0 == key@ && forall|j: int| 0 <= j < k ==> #[trigger] e[j].0 != key@,
                None => forall|j: int| 0 <= j < e.len() ==> #[trigger] e[j].0 != key@,
            },
        decreases words@.len() - i,
    {
        if same_text(words[i].0.as_str(), key) {
            assert(e[i as int].0 == key@);
            return Some(i);
        }
        i += 1;
    }
    None
}

/// Sets `key` to `value` in the words.
pub fn set_word(words: &mut Vec<(String, String)>, key: String, value: String)
    ensures
        words_view(final(words)@) == with_entry(words_view(old(words)@), key@, value@),
        word_keys_unique(words_view(old(words)@)) ==> word_keys_unique(words_view(final(words)@)),
{
    proof {
        if word_keys_unique(words_view(words@)) {
            lemma_with_entry_unique(words_view(words@), key@, value@);
        }
    }
    let ghost e = words_view(words@);
    let ghost kv = (key@, value@);
    proof {
        lemma_key_index(e, key@);
    }
    match find_key(words, key.as_str()) {
        Some(i) => {
            words.set(i, (key, value));
            assert(words_view(words@) =~= e.update(i as int, kv));
        },
        None => {
            words.push((key, value));
            assert(words_view(words@) =~= e.push(kv));
        },
    }
}

/// Deletes every word keyed `key`, keeping the order of the others.
pub fn delete_word(words: &mut Vec<(String, String)>, key: &str)
    ensures
        words_view(final(words)@) == without_entry(words_view(old(words)@), key@),
        word_keys_unique(words_view(old(words)@)) ==> word_keys_unique(words_view(final(words)@)),
{
    proof {
        lemma_without_entry(words_view(words@), key@);
    }
    let ghost e = words_view(words@);
    let mut kept: Vec<(String, String)> = Vec::new();
    let mut i: usize = 0;
    while i < words.len()
        invariant
            i <= words@.len(),
            words@ == old(words)@,
            e == words_view(words@),
            words_view(kept@) == without_entry(e.take(i as int), key@),
        decreases words@.len() - i,
    {
        assert(e.take(i + 1).drop_last() == e.take(i as int));
        assert(e.take(i + 1).last() == e[i as int]);
        if !same_text(words[i].0.as_str(), key) {
            let p = (words[i].0.clone(), words[i].1.clone());
            let ghost before = words_view(kept@);
            let ghost pv = (p.0@, p.1@);
            assert(pv == e[i as int]);
            kept.push(p);
            assert(words_view(kept@) =~= before.push(pv));
        }
        i += 1;
    }
    assert(e.take(e.len() as int) == e);
    *words = kept;
}

/// The words after the user adds `key` and `value` (both trimmed): set
/// when neither is blank, unchanged otherwise.
pub open spec fn after_add(e: Seq<(Seq<char>, Seq<char>)>, key: Seq<char>, value: Seq<char>) -> Seq<(Seq<char>, Seq<char>)> {
    if trimmed(key).len() > 0 && trimmed(value).len() > 0 {
        with_entry(e, trimmed(key), trimmed(value))
    } else {
        e
    }
}

/// Adds a word typed by the user; says whether it was taken (neither part
/// blank), in which case the input boxes are cleared.
pub fn add_word(words: &mut Vec<(String, String)>, key: &str, value: &str) -> (r: bool)
    ensures
        r == (trimmed(key@).len() > 0 && trimmed(value@).len() > 0),
        words_view(final(words)@) == after_add(words_view(old(words)@), key@, value@),
        word_keys_unique(words_view(old(words)@)) ==> word_keys_unique(words_view(final(words)@)),
{
    let k = trim_text(key);
    let v = trim_text(value);
    if k.as_str().is_empty() || v.as_str().is_empty() {
        return false;
    }
    set_word(words, k, v);
    true
}

/// The words after an inline edit of the word keyed `orig_key` commits
/// `new_text` (trimmed): a blank text changes nothing; a new key renames
/// the word (when it is there), keeping its value; a new value is set under
/// `orig_key`.
pub open spec fn after_edit(
    e: Seq<(Seq<char>, Seq<char>)>,
    orig_key: Seq<char>,
    editing_key: bool,
    new_text: Seq<char>,
) -> Seq<(Seq<char>, Seq<char>)> {
    let t = trimmed(new_text);
    if t.len() == 0 {
        e
    } else if editing_key {
        if orig_key != t {
            match key_index(e, orig_key) {
                Some(i) => with_entry(without_entry(e, orig_key), t, e[i].1),
                None => e,
            }
        } else {
            e
        }
    } else {
        with_entry(e, orig_key, t)
    }
}

/// Commits an inline edit of the word keyed `orig_key`: of its key when
/// `editing_key`, else of its value.
pub fn commit_edit(words: &mut Vec<(String, String)>, orig_key: &str, editing_key: bool, new_text: &str)
    ensures
        words_view(final(words)@) == after_edit(words_view(old(words)@), orig_key@, editing_key, new_text@),
        word_keys_unique(words_view(old(words)@)) ==> word_keys_unique(words_view(final(words)@)),
{
    let t = trim_text(new_text);
    if t.as_str().is_empty() {
        return;
    }
    if editing_key {
        if !same_text(orig_key, t.as_str()) {
            match find_key(words, orig_key) {
                Some(i) => {
                    proof {
                        lemma_key_index(words_view(words@), orig_key@);
                    }
                    let value = words[i].1.clone();
                    proof {
                        assert(value@ == words_view(words@)[i as int].1);
                    }
                    delete_word(words, orig_key);
                    set_word(words, t, value);
                },
                None => {},
            }
        }
    } else {
        set_word(words, String::from_str(orig_key), t);
    }
}

} // verus!
