//! Text shielding around machine translation, and Korean particle rules.

use crate::text::{
    chars_of, contains_text, decimal, decimal_text, each_followed, has_substring, interleaved,
    is_white_space, occurs_at, push_char,
    replace_text, replaced, trim_text, trimmed, white_space,
};
use regex::Regex;
use vstd::prelude::*;

verus! {

/// Whether `c` ends in a final consonant (batchim): a Hangul syllable whose
/// final-consonant index is not zero, or one of the digits and Latin letters
/// whose Korean reading ends in one. The particle 는, the form of the topic
/// marker that follows a vowel, is counted among the syllables without one.
pub open spec fn batchim(c: char) -> bool {
    let u = c as u32;
    if c == '는' {
        false
    } else if 0xAC00 <= u <= 0xD7A3 {
        (u - 0xAC00) % 28 != 0
    } else {
        c == '0' || c == '1' || c == '3' || c == '6' || c == '7' || c == '8' || c == 'l' || c == 'm'
            || c == 'n' || c == 'L' || c == 'M' || c == 'N'
    }
}

/// Whether `c` ends in a final consonant (batchim).
pub fn has_batchim(c: char) -> (r: bool)
    ensures
        r == batchim(c),
{
    if c == '는' {
        return false;
    }
    let u = c as u32;
    if 0xAC00 <= u && u <= 0xD7A3 {
        let code = u - 0xAC00;
        return code % 28 != 0;
    }
    match c {
        '0' | '1' | '3' | '6' | '7' | '8' | 'l' | 'm' | 'n' | 'L' | 'M' | 'N' => true,
        _ => false,
    }
}

/// The romaji that `kakasi::convert` gives for a text.
pub uninterp spec fn kakasi_romaji(text: Seq<char>) -> Seq<char>;

/// Transliterates Japanese text into romaji.
///
/// Trusted: calls `kakasi::convert` and takes the `romaji` field; the result
/// is named `kakasi_romaji`.
#[verifier::external_body]
fn kakasi_convert_romaji(text: &str) -> (r: String)
    ensures
        r@ == kakasi_romaji(text@),
{
    kakasi::convert(text).romaji
}

/// The characters that `char::to_uppercase` gives for `c`.
pub uninterp spec fn upper_text(c: char) -> Seq<char>;

/// The upper-case form of a character (one or more characters).
///
/// Trusted: collects `char::to_uppercase` into a `String`; the result is
/// named `upper_text`.
#[verifier::external_body]
fn char_to_uppercase(c: char) -> (r: String)
    ensures
        r@ == upper_text(c),
{
    c.to_uppercase().collect::<String>()
}

/// The number of white-space characters that `s` starts with.
pub open spec fn ws_prefix_len(s: Seq<char>) -> nat
    decreases s.len(),
{
    if s.len() > 0 && is_white_space(s[0]) {
        1 + ws_prefix_len(s.drop_first())
    } else {
        0
    }
}

/// The number of other characters that `s` starts with.
pub open spec fn word_prefix_len(s: Seq<char>) -> nat
    decreases s.len(),
{
    if s.len() > 0 && !is_white_space(s[0]) {
        1 + word_prefix_len(s.drop_first())
    } else {
        0
    }
}

/// Bounds of the two prefix lengths.
pub proof fn lemma_prefix_lens(s: Seq<char>)
    ensures
        ws_prefix_len(s) <= s.len(),
        word_prefix_len(s) <= s.len(),
        ws_prefix_len(s) < s.len() ==> !is_white_space(s[ws_prefix_len(s) as int]),
        s.len() > 0 && !is_white_space(s[0]) ==> word_prefix_len(s) >= 1,
    decreases s.len(),
{
    if s.len() > 0 {
        lemma_prefix_lens(s.drop_first());
    }
}

/// A word with its first character in upper case.
pub open spec fn capitalized(w: Seq<char>) -> Seq<char> {
    if w.len() == 0 {
        w
    } else {
        upper_text(w[0]) + w.drop_first()
    }
}

/// The words of `s` (split at white space), each capitalized, joined by
/// single spaces; `first` tells that no word came before.
pub open spec fn capitalized_words(s: Seq<char>, first: bool) -> Seq<char>
    decreases s.len(),
{
    let t = s.skip(ws_prefix_len(s) as int);
    if t.len() == 0 {
        Seq::empty()
    } else {
        let n = word_prefix_len(t);
        let sep = if first {
            Seq::empty()
        } else {
            seq![' ']
        };
        proof {
            lemma_prefix_lens(s);
            lemma_prefix_lens(t);
        }
        sep + capitalized(t.take(n as int)) + capitalized_words(t.skip(n as int), false)
    }
}

/// The display form of a romanised name: each word capitalized, words joined
/// by single spaces.
pub fn capitalize_words(s: &str) -> (r: String)
    ensures
        r@ == capitalized_words(s@, true),
{
    let v = chars_of(s);
    let n = v.len();
    let mut out = String::new();
    let mut i: usize = 0;
    let mut first = true;
    assert(s@.skip(0) =~= s@);
    loop
        invariant
            v@ == s@,
            n == v.len(),
            i <= n,
            out@ + capitalized_words(s@.skip(i as int), first) == capitalized_words(s@, true),
        ensures
            out@ == capitalized_words(s@, true),
        decreases n - i,
    {
        let i0 = i;
        while i < n && white_space(v[i])
            invariant
                v@ == s@,
                n == v.len(),
                i0 <= i <= n,
                ws_prefix_len(s@.skip(i0 as int)) == (i - i0) + ws_prefix_len(s@.skip(i as int)),
            decreases n - i,
        {
            assert(s@.skip(i as int).drop_first() =~= s@.skip(i + 1));
            i += 1;
        }
        proof {
            lemma_prefix_lens(s@.skip(i as int));
            if i < n {
                assert(s@.skip(i as int)[0] == v@[i as int]);
            }
            assert(ws_prefix_len(s@.skip(i as int)) == 0);
            assert(s@.skip(i0 as int).skip(ws_prefix_len(s@.skip(i0 as int)) as int) =~= s@.skip(i as int));
        }
        if i == n {
            proof {
                assert(s@.skip(i as int).len() == 0);
                assert(capitalized_words(s@.skip(i0 as int), first) =~= Seq::<char>::empty());
                assert(out@ + Seq::<char>::empty() =~= out@);
            }
            break;
        }
        let start = i;
        while i < n && !white_space(v[i])
            invariant
                v@ == s@,
                n == v.len(),
                start <= i <= n,
                word_prefix_len(s@.skip(start as int)) == (i - start) + word_prefix_len(s@.skip(i as int)),
            decreases n - i,
        {
            assert(s@.skip(i as int).drop_first() =~= s@.skip(i + 1));
            i += 1;
        }
        proof {
            if i < n {
                assert(s@.skip(i as int)[0] == v@[i as int]);
            }
            assert(word_prefix_len(s@.skip(i as int)) == 0);
        }
        let ghost t = s@.skip(start as int);
        let ghost before = out@;
        if !first {
            push_char(&mut out, ' ');
        }
        let up = char_to_uppercase(v[start]);
        out.append(up.as_str());
        out.append(s.substring_char(start + 1, i));
        proof {
            let w = t.take((i - start) as int);
            assert(w[0] == v@[start as int]);
            assert(w.drop_first() =~= s@.subrange(start + 1, i as int));
            assert(t.skip((i - start) as int) =~= s@.skip(i as int));
            let sep = if first {
                Seq::<char>::empty()
            } else {
                seq![' ']
            };
            assert(out@ =~= before + sep + capitalized(w));
        }
        first = false;
    }
    out
}

/// The romaji form of a Japanese name: kakasi's transliteration with each
/// word capitalized (for example "Azururu").
pub open spec fn romaji_name(name: Seq<char>) -> Seq<char> {
    capitalized_words(kakasi_romaji(name), true)
}

/// Transliterates a Japanese name into capitalized romaji.
pub fn convert_to_romaji(ja_name: &str) -> (r: String)
    ensures
        r@ == romaji_name(ja_name@),
{
    let romaji = kakasi_convert_romaji(ja_name);
    capitalize_words(romaji.as_str())
}

/// The texts of a list of strings.
pub open spec fn texts_view(v: Seq<String>) -> Seq<Seq<char>> {
    v.map_values(|t: String| t@)
}

/// Whether `regex::Regex::new` accepts a pattern.
pub uninterp spec fn regex_valid(pattern: Seq<char>) -> bool;

/// The successive non-overlapping matches that `Regex::find_iter` finds.
pub uninterp spec fn regex_matches(pattern: Seq<char>, text: Seq<char>) -> Seq<Seq<char>>;

/// The pieces of text between the matches that `Regex::split` gives.
pub uninterp spec fn regex_split(pattern: Seq<char>, text: Seq<char>) -> Seq<Seq<char>>;

/// For each match that `Regex::captures_iter` gives, the text of capture group
/// `group` (`None` where the group took no part).
pub uninterp spec fn regex_groups(pattern: Seq<char>, text: Seq<char>, group: nat) -> Seq<Option<Seq<char>>>;

/// The matches of `pattern` in `text`, or `None` when the pattern does not
/// compile.
///
/// Trusted: compiles with `Regex::new` and collects `Regex::find_iter`; the
/// results are named `regex_valid` and `regex_matches`.
#[verifier::external_body]
fn regex_find_all(pattern: &str, text: &str) -> (r: Option<Vec<String>>)
    ensures
        r is Some <==> regex_valid(pattern@),
        r is Some ==> texts_view(r->0@) == regex_matches(pattern@, text@),
{
    let re = Regex::new(pattern).ok()?;
    Some(re.find_iter(text).map(|m| m.as_str().to_string()).collect())
}

/// The pieces of `text` between the matches of `pattern`, or `None` when the
/// pattern does not compile.
///
/// Trusted: compiles with `Regex::new` and collects `Regex::split`; the
/// results are named `regex_valid` and `regex_split`.
#[verifier::external_body]
fn regex_split_text(pattern: &str, text: &str) -> (r: Option<Vec<String>>)
    ensures
        r is Some <==> regex_valid(pattern@),
        r is Some ==> texts_view(r->0@) == regex_split(pattern@, text@),
{
    let re = Regex::new(pattern).ok()?;
    Some(re.split(text).map(|p| p.to_string()).collect())
}

/// The texts of capture group `group` of each match of `pattern` in `text`,
/// or `None` when the pattern does not compile.
///
/// Trusted: compiles with `Regex::new` and collects `Regex::captures_iter`,
/// taking group `group` of each `Captures`; the results are named
/// `regex_valid` and `regex_groups`.
#[verifier::external_body]
fn regex_group_texts(pattern: &str, text: &str, group: usize) -> (r: Option<Vec<Option<String>>>)
    ensures
        r is Some <==> regex_valid(pattern@),
        r is Some ==> r->0@.map_values(|g: Option<String>| crate::protocol::types::opt_text(g)) == regex_groups(
            pattern@,
            text@,
            group as nat,
        ),
{
    let re = Regex::new(pattern).ok()?;
    Some(re.captures_iter(text).map(|c| c.get(group).map(|m| m.as_str().to_string())).collect())
}

/// The text of a group, the empty text where it took no part.
pub open spec fn group_text(g: Option<Seq<char>>) -> Seq<char> {
    match g {
        Some(t) => t,
        None => Seq::empty(),
    }
}

/// `pieces` with the `k`-th gap filled by `fill(k)`, for the first `k` gaps.
pub open spec fn joined_with(pieces: Seq<Seq<char>>, fill: spec_fn(nat) -> Seq<char>, k: nat) -> Seq<char>
    decreases k,
{
    if k == 0 {
        pieces[0]
    } else {
        joined_with(pieces, fill, (k - 1) as nat) + fill((k - 1) as nat) + pieces[k as int]
    }
}

/// The result of `Regex::replace_all` given the pieces between matches and
/// the replacement of each match: the text itself when the two do not fit
/// together (one piece more than matches) or the pattern does not compile.
pub open spec fn spliced(
    text: Seq<char>,
    valid: bool,
    pieces: Seq<Seq<char>>,
    matches: nat,
    fill: spec_fn(nat) -> Seq<char>,
) -> Seq<char> {
    if valid && pieces.len() == matches + 1 {
        joined_with(pieces, fill, matches)
    } else {
        text
    }
}

/// Joins `pieces` with `fill(k)` in the `k`-th gap.
pub fn join_pieces(pieces: &Vec<String>, fills: &Vec<String>) -> (r: String)
    requires
        pieces@.len() == fills@.len() + 1,
    ensures
        r@ == joined_with(texts_view(pieces@), |k: nat| fills@[k as int]@, fills@.len() as nat),
{
    let ghost f = |k: nat| fills@[k as int]@;
    let mut out = pieces[0].clone();
    let mut k: usize = 0;
    while k < fills.len()
        invariant
            pieces@.len() == fills@.len() + 1,
            k <= fills@.len(),
            f == (|k: nat| fills@[k as int]@),
            out@ == joined_with(texts_view(pieces@), f, k as nat),
        decreases fills@.len() - k,
    {
        out.append(fills[k].as_str());
        out.append(pieces[k + 1].as_str());
        k += 1;
    }
    out
}

/// The number of UTF-8 bytes of a text.
pub open spec fn byte_len(t: Seq<char>) -> nat {
    vstd::utf8::encode_utf8(t).len()
}

/// `sorted` (longest key first) with `x` placed after every pair whose key is
/// at least as long.
pub open spec fn insert_by_len(sorted: Seq<(Seq<char>, Seq<char>)>, x: (Seq<char>, Seq<char>)) -> Seq<
    (Seq<char>, Seq<char>),
>
    decreases sorted.len(),
{
    if sorted.len() == 0 {
        seq![x]
    } else if byte_len(sorted.last().0) >= byte_len(x.0) {
        sorted.push(x)
    } else {
        insert_by_len(sorted.drop_last(), x).push(sorted.last())
    }
}

/// `e` sorted by key length in bytes, longest first, pairs of equal length
/// keeping their order (a stable sort).
pub open spec fn by_key_length(e: Seq<(Seq<char>, Seq<char>)>) -> Seq<(Seq<char>, Seq<char>)>
    decreases e.len(),
{
    if e.len() == 0 {
        Seq::empty()
    } else {
        insert_by_len(by_key_length(e.drop_last()), e.last())
    }
}

/// The text pairs of a list of string pairs.
pub open spec fn pairs_view(e: Seq<(String, String)>) -> Seq<(Seq<char>, Seq<char>)> {
    e.map_values(|p: (String, String)| (p.0@, p.1@))
}

/// Where `x` goes in `s` (after every pair whose key is at least as long).
pub proof fn lemma_insert_by_len(s: Seq<(Seq<char>, Seq<char>)>, x: (Seq<char>, Seq<char>), j: int)
    requires
        0 <= j <= s.len(),
        forall|m: int| j <= m < s.len() ==> byte_len(#[trigger] s[m].0) < byte_len(x.0),
        j > 0 ==> byte_len(s[j - 1].0) >= byte_len(x.0),
    ensures
        insert_by_len(s, x) == s.take(j).push(x) + s.skip(j),
    decreases s.len(),
{
    if s.len() == 0 {
        assert(s.take(j).push(x) + s.skip(j) =~= seq![x]);
    } else if j == s.len() {
        assert(s.take(j).push(x) + s.skip(j) =~= s.push(x));
    } else {
        lemma_insert_by_len(s.drop_last(), x, j);
        assert(s.drop_last().take(j) =~= s.take(j));
        assert(s.drop_last().skip(j).push(s.last()) =~= s.skip(j));
        assert((s.take(j).push(x) + s.drop_last().skip(j)).push(s.last()) =~= s.take(j).push(x) + s.skip(j));
    }
}

/// Whether the keys of `s` never get longer, in bytes, from one pair to a
/// later one.
pub open spec fn longest_first(s: Seq<(Seq<char>, Seq<char>)>) -> bool {
    forall|i: int, j: int| 0 <= i < j < s.len() ==> byte_len(#[trigger] s[i].0) >= byte_len(#[trigger] s[j].0)
}

proof fn lemma_insert_bound(s: Seq<(Seq<char>, Seq<char>)>, x: (Seq<char>, Seq<char>), b: nat)
    requires
        forall|i: int| 0 <= i < s.len() ==> byte_len(#[trigger] s[i].0) >= b,
        byte_len(x.0) >= b,
    ensures
        forall|i: int| 0 <= i < insert_by_len(s, x).len() ==> byte_len(#[trigger] insert_by_len(s, x)[i].0) >= b,
    decreases s.len(),
{
    let r = insert_by_len(s, x);
    if s.len() == 0 {
        assert(r == seq![x]);
    } else if byte_len(s.last().0) >= byte_len(x.0) {
        assert(r == s.push(x));
        assert forall|i: int| 0 <= i < r.len() implies byte_len(#[trigger] r[i].0) >= b by {
            if i < s.len() {
                assert(r[i] == s[i]);
            }
        }
    } else {
        lemma_insert_bound(s.drop_last(), x, b);
        let inner = insert_by_len(s.drop_last(), x);
        assert(r == inner.push(s.last()));
        assert forall|i: int| 0 <= i < r.len() implies byte_len(#[trigger] r[i].0) >= b by {
            if i < inner.len() {
                assert(r[i] == inner[i]);
            } else {
                assert(r[i] == s[s.len() - 1]);
            }
        }
    }
}

proof fn lemma_insert_sorted(s: Seq<(Seq<char>, Seq<char>)>, x: (Seq<char>, Seq<char>))
    requires
        longest_first(s),
    ensures
        longest_first(insert_by_len(s, x)),
        insert_by_len(s, x).to_multiset() == s.to_multiset().insert(x),
    decreases s.len(),
{
    broadcast use vstd::seq_lib::group_to_multiset_ensures;

    if s.len() > 0 {
        let last = s.last();
        assert(s.drop_last().push(last) == s);
        if byte_len(last.0) < byte_len(x.0) {
            lemma_insert_sorted(s.drop_last(), x);
            let inner = insert_by_len(s.drop_last(), x);
            lemma_insert_bound(s.drop_last(), x, byte_len(last.0));
            assert(longest_first(inner.push(last)));
            assert(inner.push(last).to_multiset() == inner.to_multiset().insert(last));
            assert(s.to_multiset() == s.drop_last().to_multiset().insert(last));
            assert(s.drop_last().to_multiset().insert(x).insert(last) =~= s.drop_last().to_multiset().insert(
                last,
            ).insert(x));
        }
    } else {
        assert(seq![x] == s.push(x));
    }
}

/// Placeholders and dictionary terms are replaced longest key first, so that
/// "[P1]" never eats the start of "[P10]": the order used holds exactly the
/// given pairs, each key at least as long as every later one.
pub proof fn law_longest_key_first(e: Seq<(Seq<char>, Seq<char>)>)
    ensures
        longest_first(by_key_length(e)),
        by_key_length(e).to_multiset() == e.to_multiset(),
        by_key_length(e).len() == e.len(),
    decreases e.len(),
{
    broadcast use vstd::seq_lib::group_to_multiset_ensures;

    if e.len() > 0 {
        law_longest_key_first(e.drop_last());
        lemma_insert_sorted(by_key_length(e.drop_last()), e.last());
        assert(e.drop_last().push(e.last()) == e);
    }
    assert(by_key_length(e).len() == by_key_length(e).to_multiset().len());
}

/// Sorts pairs by key length in bytes, longest first, keeping the order of
/// pairs whose keys are as long.
pub fn sort_by_key_length(entries: Vec<(String, String)>) -> (r: Vec<(String, String)>)
    ensures
        pairs_view(r@) == by_key_length(pairs_view(entries@)),
{
    let mut sorted: Vec<(String, String)> = Vec::new();
    let mut lens: Vec<usize> = Vec::new();
    let mut i: usize = 0;
    let ghost e = pairs_view(entries@);
    while i < entries.len()
        invariant
            e == pairs_view(entries@),
            i <= entries@.len(),
            lens@.len() == sorted@.len(),
            forall|m: int| 0 <= m < sorted@.len() ==> lens@[m] == byte_len(#[trigger] sorted@[m].0@),
            pairs_view(sorted@) == by_key_length(e.take(i as int)),
        decreases entries@.len() - i,
    {
        let x = (entries[i].0.clone(), entries[i].1.clone());
        let xl = x.0.as_str().as_bytes().len();
        let ghost xv = (x.0@, x.1@);

        let mut j = sorted.len();
        while j > 0 && lens[j - 1] < xl
            invariant
                j <= sorted@.len(),
                lens@.len() == sorted@.len(),
                forall|m: int| j <= m < sorted@.len() ==> #[trigger] lens@[m] < xl,
            decreases j,
        {
            j -= 1;
        }
        let ghost before = pairs_view(sorted@);
        proof {
            lemma_insert_by_len(before, xv, j as int);
        }
        sorted.insert(j, x);
        lens.insert(j, xl);
        proof {
            assert(e.take(i + 1).drop_last() =~= e.take(i as int));
            assert(pairs_view(sorted@) =~= before.take(j as int).push(xv) + before.skip(j as int));
        }
        i += 1;
    }
    proof {
        assert(e.take(entries@.len() as int) =~= e);
    }
    sorted
}

/// A text with the terms the translator must not touch replaced by
/// placeholders, and what each placeholder stands for.
#[derive(Debug)]
pub struct ShieldData {
    pub masked_text: String,
    pub replacements: Vec<(String, String)>,
}

/// The abstract value of a shielded text: (text, (placeholder, term) pairs).
pub open spec fn shield_view(d: ShieldData) -> (Seq<char>, Seq<(Seq<char>, Seq<char>)>) {
    (d.masked_text@, pairs_view(d.replacements@))
}

/// The `n`-th placeholder, "[P" n "]".
pub open spec fn placeholder(n: nat) -> Seq<char> {
    "[P"@ + decimal_text(n) + "]"@
}

/// The shield after `target` is replaced everywhere by the next placeholder,
/// which stands for `term`.
pub open spec fn masked(st: (Seq<char>, Seq<(Seq<char>, Seq<char>)>), target: Seq<char>, term: Seq<char>) -> (
    Seq<char>,
    Seq<(Seq<char>, Seq<char>)>,
) {
    let ph = placeholder(st.1.len());
    (replaced(st.0, target, ph), st.1.push((ph, term)))
}

/// [`masked`], when the text holds `target`.
pub open spec fn mask_if_present(st: (Seq<char>, Seq<(Seq<char>, Seq<char>)>), target: Seq<char>, term: Seq<char>) -> (
    Seq<char>,
    Seq<(Seq<char>, Seq<char>)>,
) {
    if has_substring(st.0, target) {
        masked(st, target, term)
    } else {
        st
    }
}

/// The Japanese brackets that are shielded, in the order they are masked.
pub open spec fn jp_brackets() -> Seq<Seq<char>> {
    seq![
        "【"@,
        "】"@,
        "「"@,
        "」"@,
        "『"@,
        "』"@,
        "（"@,
        "）"@,
        "〈"@,
        "〉"@,
        "《"@,
        "》"@,
        "［"@,
        "］"@,
    ]
}

/// The `i`-th shielded bracket.
fn jp_bracket(i: usize) -> (r: &'static str)
    requires
        i < 14,
    ensures
        r@ == jp_brackets()[i as int],
{
    match i {
        0 => "【",
        1 => "】",
        2 => "「",
        3 => "」",
        4 => "『",
        5 => "』",
        6 => "（",
        7 => "）",
        8 => "〈",
        9 => "〉",
        10 => "《",
        11 => "》",
        12 => "［",
        _ => "］",
    }
}

/// The shield after the first `k` brackets present are masked, each
/// standing for itself.
pub open spec fn mask_brackets(st: (Seq<char>, Seq<(Seq<char>, Seq<char>)>), k: nat) -> (
    Seq<char>,
    Seq<(Seq<char>, Seq<char>)>,
)
    decreases k,
{
    if k == 0 {
        st
    } else {
        let b = jp_brackets()[k - 1];
        mask_if_present(mask_brackets(st, (k - 1) as nat), b, b)
    }
}

/// The shield after the sender's Japanese name in the text is replaced by
/// its romaji (when both are known).
pub open spec fn rename_nickname(
    st: (Seq<char>, Seq<(Seq<char>, Seq<char>)>),
    romaji: Option<Seq<char>>,
    ja_name: Option<Seq<char>>,
) -> (Seq<char>, Seq<(Seq<char>, Seq<char>)>) {
    match (romaji, ja_name) {
        (Some(r), Some(j)) => if has_substring(st.0, j) {
            (replaced(st.0, j, r), st.1)
        } else {
            st
        },
        _ => st,
    }
}

/// The shield after each of the first `k` terms is masked, standing for itself.
pub open spec fn mask_each(st: (Seq<char>, Seq<(Seq<char>, Seq<char>)>), terms: Seq<Seq<char>>, k: nat) -> (
    Seq<char>,
    Seq<(Seq<char>, Seq<char>)>,
)
    decreases k,
{
    if k == 0 {
        st
    } else {
        let t = terms[k - 1];
        masked(mask_each(st, terms, (k - 1) as nat), t, t)
    }
}

/// The pattern of a recruitment tag or @-mention.
pub open spec fn recruit_pattern() -> Seq<char> {
    "@[A-Za-z0-9]+"@
}

/// The shield after every @-tag found in the text is masked as itself.
pub open spec fn mask_recruits(st: (Seq<char>, Seq<(Seq<char>, Seq<char>)>)) -> (
    Seq<char>,
    Seq<(Seq<char>, Seq<char>)>,
) {
    if regex_valid(recruit_pattern()) {
        let found = regex_matches(recruit_pattern(), st.0);
        mask_each(st, found, found.len())
    } else {
        st
    }
}

/// The shield after the first `k` dictionary terms present are masked, each
/// standing for its translation.
pub open spec fn mask_dict(st: (Seq<char>, Seq<(Seq<char>, Seq<char>)>), d: Seq<(Seq<char>, Seq<char>)>, k: nat) -> (
    Seq<char>,
    Seq<(Seq<char>, Seq<char>)>,
)
    decreases k,
{
    if k == 0 {
        st
    } else {
        mask_if_present(mask_dict(st, d, (k - 1) as nat), d[k - 1].0, d[k - 1].1)
    }
}

/// The shield after each match of a counter pattern ("3周") is masked by a
/// fresh placeholder standing for the number with the Korean counter.
pub open spec fn mask_numbers(st: (Seq<char>, Seq<(Seq<char>, Seq<char>)>), pattern: Seq<char>, counter: Seq<char>) -> (
    Seq<char>,
    Seq<(Seq<char>, Seq<char>)>,
) {
    let pieces = regex_split(pattern, st.0);
    let groups = regex_groups(pattern, st.0, 1);
    let n = st.1.len();
    if regex_valid(pattern) && pieces.len() == groups.len() + 1 {
        (
            joined_with(pieces, |k: nat| placeholder(n + k), groups.len()),
            st.1 + Seq::new(groups.len(), |k: int| (placeholder((n + k) as nat), group_text(groups[k]) + counter)),
        )
    } else {
        st
    }
}

/// What `preprocess_text` gives: brackets and @-tags shielded (each tag
/// as written), the sender's Japanese name replaced by its romaji in what
/// is left, then dictionary terms (longest first) and counted numbers
/// shielded in turn.
pub open spec fn preprocessed(
    input: Seq<char>,
    dict: Seq<(Seq<char>, Seq<char>)>,
    romaji: Option<Seq<char>>,
    ja_name: Option<Seq<char>>,
) -> (Seq<char>, Seq<(Seq<char>, Seq<char>)>) {
    let s1 = mask_brackets((input, Seq::empty()), 14);
    let s2 = mask_recruits(s1);
    let s3 = rename_nickname(s2, romaji, ja_name);
    let d = by_key_length(dict);
    let s4 = mask_dict(s3, d, d.len());
    let s5 = mask_numbers(s4, "(\\d+)種"@, "종"@);
    let s6 = mask_numbers(s5, "(\\d+)人"@, "인"@);
    let s7 = mask_numbers(s6, "(\\d+)周"@, "주"@);
    mask_numbers(s7, "(\\d+)回"@, "회"@)
}

/// The placeholder numbered by the count of replacements so far.
fn next_placeholder(count: usize) -> (r: String)
    ensures
        r@ == placeholder(count as nat),
{
    let mut ph = String::from_str("[P");
    let digits = decimal(count as u64);
    ph.append(digits.as_str());
    ph.append("]");
    ph
}

/// Replaces `target` everywhere by the next placeholder, standing for `term`.
fn mask_term(text: &mut String, reps: &mut Vec<(String, String)>, target: &str, term: &str)
    ensures
        (final(text)@, pairs_view(final(reps)@)) == masked((old(text)@, pairs_view(old(reps)@)), target@, term@),
{
    let ph = next_placeholder(reps.len());
    let t = replace_text(text.as_str(), target, ph.as_str());
    *text = t;
    let ghost before = pairs_view(reps@);
    reps.push((ph, String::from_str(term)));
    assert(pairs_view(reps@) =~= before.push((placeholder(old(reps)@.len()), term@)));
}

/// Masks each match of a counter pattern with a fresh placeholder standing
/// for the number and `counter`.
fn shield_numbers(text: &mut String, reps: &mut Vec<(String, String)>, pattern: &str, counter: &str)
    ensures
        (final(text)@, pairs_view(final(reps)@)) == mask_numbers(
            (old(text)@, pairs_view(old(reps)@)),
            pattern@,
            counter@,
        ),
{
    let pieces = regex_split_text(pattern, text.as_str());
    let groups = regex_group_texts(pattern, text.as_str(), 1);
    match (pieces, groups) {
        (Some(pieces), Some(groups)) => {
            if pieces.len() == 0 || pieces.len() - 1 != groups.len() {
                return;
            }
            let ghost n = reps@.len();
            let ghost r0 = pairs_view(reps@);
            let ghost gv = groups@.map_values(|g: Option<String>| crate::protocol::types::opt_text(g));
            let mut fills: Vec<String> = Vec::new();
            let mut k: usize = 0;
            while k < groups.len()
                invariant
                    n == r0.len(),
                    k <= groups@.len(),
                    fills@.len() == k,
                    reps@.len() == n + k,
                    gv == groups@.map_values(|g: Option<String>| crate::protocol::types::opt_text(g)),
                    forall|j: int| 0 <= j < k ==> #[trigger] fills@[j]@ == placeholder((n + j) as nat),
                    pairs_view(reps@) == r0 + Seq::new(
                        k as nat,
                        |j: int| (placeholder((n + j) as nat), group_text(gv[j]) + counter@),
                    ),
                decreases groups@.len() - k,
            {
                let ph = next_placeholder(reps.len());
                let mut term = match &groups[k] {
                    Some(g) => g.clone(),
                    None => String::new(),
                };
                term.append(counter);
                let ghost before = pairs_view(reps@);
                let ghost entry = (ph@, term@);
                reps.push((ph.clone(), term));
                fills.push(ph);
                proof {
                    assert(gv[k as int] == crate::protocol::types::opt_text(groups@[k as int]));
                    assert(entry == (placeholder((n + k) as nat), group_text(gv[k as int]) + counter@));
                    assert(pairs_view(reps@) =~= before.push(entry));
                    assert(r0 + Seq::new(
                        (k + 1) as nat,
                        |j: int| (placeholder((n + j) as nat), group_text(gv[j]) + counter@),
                    ) =~= (r0 + Seq::new(
                        k as nat,
                        |j: int| (placeholder((n + j) as nat), group_text(gv[j]) + counter@),
                    )).push(entry));
                }
                k += 1;
            }
            let joined = join_pieces(&pieces, &fills);
            proof {
                let f1 = |j: nat| fills@[j as int]@;
                let f2 = |j: nat| placeholder(n + j);
                lemma_joined_same(texts_view(pieces@), f1, f2, groups@.len() as nat);
            }
            *text = joined;
        },
        _ => {},
    }
}

/// Joining with fills that agree on the gaps used gives the same text.
pub proof fn lemma_joined_same(pieces: Seq<Seq<char>>, f1: spec_fn(nat) -> Seq<char>, f2: spec_fn(nat) -> Seq<char>, k: nat)
    requires
        forall|j: nat| j < k ==> #[trigger] f1(j) == f2(j),
    ensures
        joined_with(pieces, f1, k) == joined_with(pieces, f2, k),
    decreases k,
{
    if k > 0 {
        lemma_joined_same(pieces, f1, f2, (k - 1) as nat);
        assert(f1((k - 1) as nat) == f2((k - 1) as nat));
    }
}

/// The text of an optional string slice.
pub open spec fn opt_str(o: Option<&str>) -> Option<Seq<char>> {
    match o {
        Some(t) => Some(t@),
        None => None,
    }
}

/// A copy of a list of string pairs.
pub fn copy_pairs(v: &Vec<(String, String)>) -> (r: Vec<(String, String)>)
    ensures
        pairs_view(r@) == pairs_view(v@),
{
    let mut out: Vec<(String, String)> = Vec::new();
    let mut i: usize = 0;
    while i < v.len()
        invariant
            i <= v@.len(),
            pairs_view(out@) == pairs_view(v@).take(i as int),
        decreases v@.len() - i,
    {
        let ghost before = pairs_view(out@);
        out.push((v[i].0.clone(), v[i].1.clone()));
        assert(pairs_view(out@) =~= before.push((v@[i as int].0@, v@[i as int].1@)));
        assert(pairs_view(v@).take(i + 1) =~= pairs_view(v@).take(i as int).push((v@[i as int].0@, v@[i as int].1@)));
        i += 1;
    }
    assert(pairs_view(v@).take(v@.len() as int) =~= pairs_view(v@));
    out
}

/// Shields the terms of a Japanese message that the translator must leave
/// alone: Japanese brackets, @-tags, dictionary terms (longest first) and
/// counted numbers ("3周") become placeholders "[P0]", "[P1]", ... that
/// [`postprocess_text`] restores; the sender's Japanese name is first
/// replaced by its romaji. The dictionary is given as (Japanese, Korean) pairs.
pub fn preprocess_text(
    input: &str,
    custom_dict: &Vec<(String, String)>,
    nickname_romaji: Option<&str>,
    original_nickname: Option<&str>,
) -> (r: ShieldData)
    ensures
        shield_view(r) == preprocessed(
            input@,
            pairs_view(custom_dict@),
            opt_str(nickname_romaji),
            opt_str(original_nickname),
        ),
{
    let mut text = String::from_str(input);
    let mut reps: Vec<(String, String)> = Vec::new();
    let ghost s0 = (input@, Seq::<(Seq<char>, Seq<char>)>::empty());
    assert(pairs_view(reps@) =~= Seq::<(Seq<char>, Seq<char>)>::empty());

    // Japanese brackets.
    let mut i: usize = 0;
    while i < 14
        invariant
            i <= 14,
            (text@, pairs_view(reps@)) == mask_brackets(s0, i as nat),
        decreases 14 - i,
    {
        let b = jp_bracket(i);
        if contains_text(text.as_str(), b) {
            mask_term(&mut text, &mut reps, b, b);
        }
        i += 1;
    }
    let ghost s1 = mask_brackets(s0, 14);

    // Recruitment tags and @-mentions, kept as written.
    match regex_find_all("@[A-Za-z0-9]+", text.as_str()) {
        Some(found) => {
            let mut k: usize = 0;
            while k < found.len()
                invariant
                    k <= found@.len(),
                    regex_valid(recruit_pattern()),
                    texts_view(found@) == regex_matches(recruit_pattern(), s1.0),
                    (text@, pairs_view(reps@)) == mask_each(s1, texts_view(found@), k as nat),
                decreases found@.len() - k,
            {
                mask_term(&mut text, &mut reps, found[k].as_str(), found[k].as_str());
                k += 1;
            }
        },
        None => {},
    }
    let ghost s2 = mask_recruits(s1);
    assert((text@, pairs_view(reps@)) == s2);

    // The sender's name.
    if let (Some(romaji), Some(ja_name)) = (nickname_romaji, original_nickname) {
        if contains_text(text.as_str(), ja_name) {
            text = replace_text(text.as_str(), ja_name, romaji);
        }
    }
    let ghost s3 = rename_nickname(s2, opt_str(nickname_romaji), opt_str(original_nickname));
    assert((text@, pairs_view(reps@)) == s3);

    // Dictionary terms, longest first.
    let sorted = sort_by_key_length(copy_pairs(custom_dict));
    let ghost d = by_key_length(pairs_view(custom_dict@));
    let mut k: usize = 0;
    while k < sorted.len()
        invariant
            k <= sorted@.len(),
            pairs_view(sorted@) == d,
            (text@, pairs_view(reps@)) == mask_dict(s3, d, k as nat),
        decreases sorted@.len() - k,
    {
        let ja = sorted[k].0.as_str();
        let ko = sorted[k].1.as_str();
        if contains_text(text.as_str(), ja) {
            mask_term(&mut text, &mut reps, ja, ko);
        }
        k += 1;
    }

    // Counted numbers.
    shield_numbers(&mut text, &mut reps, "(\\d+)種", "종");
    shield_numbers(&mut text, &mut reps, "(\\d+)人", "인");
    shield_numbers(&mut text, &mut reps, "(\\d+)周", "주");
    shield_numbers(&mut text, &mut reps, "(\\d+)回", "회");
    ShieldData { masked_text: text, replacements: reps }
}

/// `Regex::replace_all` with a fixed replacement, told by the pieces between
/// the matches (the text itself when the pattern does not compile).
pub open spec fn replaced_by_const(text: Seq<char>, pattern: Seq<char>, rep: Seq<char>) -> Seq<char> {
    let pieces = regex_split(pattern, text);
    if regex_valid(pattern) && pieces.len() > 0 {
        joined_with(pieces, |k: nat| rep, (pieces.len() - 1) as nat)
    } else {
        text
    }
}

/// Replaces every match of `pattern` in `text` by `rep`.
fn replace_all_const(text: &str, pattern: &str, rep: &str) -> (r: String)
    ensures
        r@ == replaced_by_const(text@, pattern@, rep@),
{
    match regex_split_text(pattern, text) {
        Some(pieces) => {
            if pieces.len() == 0 {
                return String::from_str(text);
            }
            let mut fills: Vec<String> = Vec::new();
            let mut k: usize = 0;
            while k < pieces.len() - 1
                invariant
                    pieces@.len() > 0,
                    k <= pieces@.len() - 1,
                    fills@.len() == k,
                    forall|j: int| 0 <= j < k ==> #[trigger] fills@[j]@ == rep@,
                decreases pieces@.len() - 1 - k,
            {
                fills.push(String::from_str(rep));
                k += 1;
            }
            let joined = join_pieces(&pieces, &fills);
            proof {
                lemma_joined_same(
                    texts_view(pieces@),
                    |j: nat| fills@[j as int]@,
                    |j: nat| rep@,
                    (pieces@.len() - 1) as nat,
                );
            }
            joined
        },
        None => String::from_str(text),
    }
}

/// The text after the placeholders of the first `k` pairs are replaced by
/// the terms they stand for.
pub open spec fn restore_all(t: Seq<char>, reps: Seq<(Seq<char>, Seq<char>)>, k: nat) -> Seq<char>
    decreases k,
{
    if k == 0 {
        t
    } else {
        replaced(restore_all(t, reps, (k - 1) as nat), reps[k - 1].0, reps[k - 1].1)
    }
}

/// The pattern of white space before punctuation.
pub open spec fn space_punct_pattern() -> Seq<char> {
    "\\s+([.!?,~])"@
}

/// The text with the white space before each punctuation mark removed.
pub open spec fn punct_tightened(t: Seq<char>) -> Seq<char> {
    let pieces = regex_split(space_punct_pattern(), t);
    let groups = regex_groups(space_punct_pattern(), t, 1);
    spliced(t, regex_valid(space_punct_pattern()), pieces, groups.len(), |k: nat| group_text(groups[k as int]))
}

/// What `postprocess_text` gives: the model's reasoning blocks removed, the
/// placeholders restored (longest first, so "[P10]" goes before "[P1]"),
/// white space before punctuation removed, runs of white space collapsed to
/// one space, and the ends trimmed.
pub open spec fn postprocessed(translated: Seq<char>, reps: Seq<(Seq<char>, Seq<char>)>) -> Seq<char> {
    let t1 = replaced_by_const(translated, "(?s)<think>.*?</think>\\s*"@, Seq::empty());
    let d = by_key_length(reps);
    let t2 = restore_all(t1, d, d.len());
    let t3 = punct_tightened(t2);
    let t4 = replaced_by_const(t3, "\\s+"@, " "@);
    trimmed(t4)
}

/// Removes the white space before each punctuation mark.
fn tighten_punctuation(text: &str) -> (r: String)
    ensures
        r@ == punct_tightened(text@),
{
    let pieces = regex_split_text("\\s+([.!?,~])", text);
    let groups = regex_group_texts("\\s+([.!?,~])", text, 1);
    match (pieces, groups) {
        (Some(pieces), Some(groups)) => {
            if pieces.len() == 0 || pieces.len() - 1 != groups.len() {
                return String::from_str(text);
            }
            let ghost gv = groups@.map_values(|g: Option<String>| crate::protocol::types::opt_text(g));
            let mut fills: Vec<String> = Vec::new();
            let mut k: usize = 0;
            while k < groups.len()
                invariant
                    k <= groups@.len(),
                    fills@.len() == k,
                    gv == groups@.map_values(|g: Option<String>| crate::protocol::types::opt_text(g)),
                    forall|j: int| 0 <= j < k ==> #[trigger] fills@[j]@ == group_text(gv[j]),
                decreases groups@.len() - k,
            {
                let g = match &groups[k] {
                    Some(g) => g.clone(),
                    None => String::new(),
                };
                assert(gv[k as int] == crate::protocol::types::opt_text(groups@[k as int]));
                fills.push(g);
                k += 1;
            }
            let joined = join_pieces(&pieces, &fills);
            proof {
                lemma_joined_same(
                    texts_view(pieces@),
                    |j: nat| fills@[j as int]@,
                    |j: nat| group_text(gv[j as int]),
                    groups@.len() as nat,
                );
            }
            joined
        },
        _ => String::from_str(text),
    }
}

/// Restores a translation of a shielded text: drops the model's reasoning
/// blocks, puts the shielded terms back in place of their placeholders,
/// removes white space before punctuation, collapses white space and trims.
pub fn postprocess_text(translated: &str, shield: &ShieldData) -> (r: String)
    ensures
        r@ == postprocessed(translated@, pairs_view(shield.replacements@)),
{
    proof {
        reveal_strlit("");
    }
    let mut text = replace_all_const(translated, "(?s)<think>.*?</think>\\s*", "");
    let sorted = sort_by_key_length(copy_pairs(&shield.replacements));
    let ghost t1 = text@;
    let ghost d = by_key_length(pairs_view(shield.replacements@));
    let mut k: usize = 0;
    while k < sorted.len()
        invariant
            k <= sorted@.len(),
            pairs_view(sorted@) == d,
            text@ == restore_all(t1, d, k as nat),
        decreases sorted@.len() - k,
    {
        text = replace_text(text.as_str(), sorted[k].0.as_str(), sorted[k].1.as_str());
        k += 1;
    }
    assert(""@ =~= Seq::<char>::empty());
    assert(t1 == replaced_by_const(translated@, "(?s)<think>.*?</think>\\s*"@, Seq::empty()));
    assert(text@ == restore_all(t1, d, d.len()));
    let tight = tighten_punctuation(text.as_str());
    let collapsed = replace_all_const(tight.as_str(), "\\s+", " ");
    trim_text(collapsed.as_str())
}

/// What a dictionary file holds once parsed: `None` when it is not JSON,
/// `Some(None)` when it has no "data" object, else the (key, value) pairs of
/// "data" in the order serde_json keeps them, each value's text when it is a
/// string.
pub uninterp spec fn dictionary_json(content: Seq<char>) -> Option<Option<Seq<(Seq<char>, Option<Seq<char>>)>>>;

/// The abstract value of parsed dictionary pairs.
pub open spec fn json_pairs_view(e: Seq<(String, Option<String>)>) -> Seq<(Seq<char>, Option<Seq<char>>)> {
    e.map_values(|p: (String, Option<String>)| (p.0@, crate::protocol::types::opt_text(p.1)))
}

/// Parses a dictionary file and reads its "data" object.
///
/// Trusted: calls `serde_json::from_str` into a `serde_json::Value` and reads
/// the object under "data", mapping each value to its text when it is a
/// string; the result is named `dictionary_json`.
#[verifier::external_body]
fn parse_dictionary_json(content: &str) -> (r: Option<Option<Vec<(String, Option<String>)>>>)
    ensures
        match (r, dictionary_json(content@)) {
            (None, None) => true,
            (Some(None), Some(None)) => true,
            (Some(Some(e)), Some(Some(v))) => json_pairs_view(e@) == v,
            _ => false,
        },
{
    let json: serde_json::Value = serde_json::from_str(content).ok()?;
    match json.get("data") {
        Some(serde_json::Value::Object(map)) => Some(Some(
            map.iter().map(|(k, v)| (k.clone(), v.as_str().map(|t| t.to_string()))).collect(),
        )),
        _ => Some(None),
    }
}

/// The brackets that are never dictionary terms.
pub open spec fn ignored_brackets() -> Seq<char> {
    "【】「」『』（）〈〉《》"@
}

/// The first `k` parsed pairs kept as dictionary terms: string values whose
/// key is not part of the ignored brackets.
pub open spec fn kept_terms(e: Seq<(Seq<char>, Option<Seq<char>>)>, k: nat) -> Seq<(Seq<char>, Seq<char>)>
    decreases k,
{
    if k == 0 {
        Seq::empty()
    } else {
        let prev = kept_terms(e, (k - 1) as nat);
        let p = e[k - 1];
        match p.1 {
            Some(v) => if !has_substring(ignored_brackets(), p.0) {
                prev.push((p.0, v))
            } else {
                prev
            },
            None => prev,
        }
    }
}

/// The dictionary that a file holds: nothing when it is blank, not JSON or
/// without a "data" object, else the kept terms of "data".
pub open spec fn dictionary_terms(content: Seq<char>) -> Seq<(Seq<char>, Seq<char>)> {
    if trimmed(content).len() == 0 {
        Seq::empty()
    } else {
        match dictionary_json(content) {
            Some(Some(e)) => kept_terms(e, e.len()),
            _ => Seq::empty(),
        }
    }
}

/// The dictionary terms among the parsed pairs of a file's "data" object,
/// in their order: string values whose key is not part of the ignored
/// brackets.
pub fn dictionary_from_entries(entries: &Vec<(String, Option<String>)>) -> (r: Vec<(String, String)>)
    ensures
        pairs_view(r@) == kept_terms(json_pairs_view(entries@), entries@.len()),
{
    let mut out: Vec<(String, String)> = Vec::new();
    let ghost e = json_pairs_view(entries@);
    assert(pairs_view(out@) =~= kept_terms(e, 0));
    let mut i: usize = 0;
    while i < entries.len()
        invariant
            e == json_pairs_view(entries@),
            i <= entries@.len(),
            pairs_view(out@) == kept_terms(e, i as nat),
        decreases entries@.len() - i,
    {
        let key = entries[i].0.as_str();
        match &entries[i].1 {
            Some(v) => {
                if !contains_text("【】「」『』（）〈〉《》", key) {
                    let ghost before = pairs_view(out@);
                    out.push((String::from_str(key), v.clone()));
                    assert(pairs_view(out@) =~= before.push((key@, v@)));
                }
            },
            None => {},
        }
        i += 1;
    }
    out
}

/// Reads the custom dictionary from the text of its file, as (Japanese,
/// Korean) pairs; a blank or broken file gives an empty dictionary.
pub fn load_dictionary(content: &str) -> (r: Vec<(String, String)>)
    ensures
        pairs_view(r@) == dictionary_terms(content@),
{
    let out: Vec<(String, String)> = Vec::new();
    assert(pairs_view(out@) =~= Seq::<(Seq<char>, Seq<char>)>::empty());
    let clean = trim_text(content);
    if clean.as_str().is_empty() {
        return out;
    }
    match parse_dictionary_json(content) {
        Some(Some(entries)) => dictionary_from_entries(&entries),
        _ => out,
    }
}

/// Whether the `i`-th pair holds the `i`-th placeholder, for every `i`.
pub open spec fn numbered(reps: Seq<(Seq<char>, Seq<char>)>) -> bool {
    forall|i: int| 0 <= i < reps.len() ==> #[trigger] reps[i].0 == placeholder(i as nat)
}

proof fn lemma_masked_numbered(st: (Seq<char>, Seq<(Seq<char>, Seq<char>)>), target: Seq<char>, term: Seq<char>)
    requires
        numbered(st.1),
    ensures
        numbered(masked(st, target, term).1),
        numbered(mask_if_present(st, target, term).1),
{
    let r = masked(st, target, term).1;
    assert forall|i: int| 0 <= i < r.len() implies #[trigger] r[i].0 == placeholder(i as nat) by {
        if i < st.1.len() {
            assert(r[i] == st.1[i]);
        }
    }
}

proof fn lemma_brackets_numbered(st: (Seq<char>, Seq<(Seq<char>, Seq<char>)>), k: nat)
    requires
        numbered(st.1),
    ensures
        numbered(mask_brackets(st, k).1),
    decreases k,
{
    if k > 0 {
        lemma_brackets_numbered(st, (k - 1) as nat);
        lemma_masked_numbered(mask_brackets(st, (k - 1) as nat), jp_brackets()[k - 1], jp_brackets()[k - 1]);
    }
}

proof fn lemma_each_numbered(st: (Seq<char>, Seq<(Seq<char>, Seq<char>)>), terms: Seq<Seq<char>>, k: nat)
    requires
        numbered(st.1),
    ensures
        numbered(mask_each(st, terms, k).1),
    decreases k,
{
    if k > 0 {
        lemma_each_numbered(st, terms, (k - 1) as nat);
        lemma_masked_numbered(mask_each(st, terms, (k - 1) as nat), terms[k - 1], terms[k - 1]);
    }
}

proof fn lemma_dict_numbered(st: (Seq<char>, Seq<(Seq<char>, Seq<char>)>), d: Seq<(Seq<char>, Seq<char>)>, k: nat)
    requires
        numbered(st.1),
    ensures
        numbered(mask_dict(st, d, k).1),
    decreases k,
{
    if k > 0 {
        lemma_dict_numbered(st, d, (k - 1) as nat);
        lemma_masked_numbered(mask_dict(st, d, (k - 1) as nat), d[k - 1].0, d[k - 1].1);
    }
}

proof fn lemma_numbers_numbered(st: (Seq<char>, Seq<(Seq<char>, Seq<char>)>), pattern: Seq<char>, counter: Seq<char>)
    requires
        numbered(st.1),
    ensures
        numbered(mask_numbers(st, pattern, counter).1),
{
    let r = mask_numbers(st, pattern, counter).1;
    let n = st.1.len();
    assert forall|i: int| 0 <= i < r.len() implies #[trigger] r[i].0 == placeholder(i as nat) by {
        if i >= n && r != st.1 {
            assert(r[i].0 == placeholder((n + (i - n)) as nat));
        }
    }
}

/// Every replacement of a shielded text holds the placeholder of its
/// position: "[P0]", "[P1]", ... in order.
pub proof fn law_placeholders_numbered(
    input: Seq<char>,
    dict: Seq<(Seq<char>, Seq<char>)>,
    romaji: Option<Seq<char>>,
    ja_name: Option<Seq<char>>,
)
    ensures
        numbered(preprocessed(input, dict, romaji, ja_name).1),
{
    let s0 = (input, Seq::<(Seq<char>, Seq<char>)>::empty());
    lemma_brackets_numbered(s0, 14);
    let s1 = mask_brackets(s0, 14);
    if regex_valid(recruit_pattern()) {
        let found = regex_matches(recruit_pattern(), s1.0);
        lemma_each_numbered(s1, found, found.len());
    }
    let s2 = mask_recruits(s1);
    let s3 = rename_nickname(s2, romaji, ja_name);
    let d = by_key_length(dict);
    lemma_dict_numbered(s3, d, d.len());
    let s4 = mask_dict(s3, d, d.len());
    lemma_numbers_numbered(s4, "(\\d+)種"@, "종"@);
    let s5 = mask_numbers(s4, "(\\d+)種"@, "종"@);
    lemma_numbers_numbered(s5, "(\\d+)人"@, "인"@);
    let s6 = mask_numbers(s5, "(\\d+)人"@, "인"@);
    lemma_numbers_numbered(s6, "(\\d+)周"@, "주"@);
    let s7 = mask_numbers(s6, "(\\d+)周"@, "주"@);
    lemma_numbers_numbered(s7, "(\\d+)回"@, "회"@);
}

} // verus!

verus! {

/// The Japanese brackets, as characters: 【】「」『』（）〈〉《》［］.
pub open spec fn bracket_chars() -> Seq<char> {
    seq!['【', '】', '「', '」', '『', '』', '（', '）', '〈', '〉', '《', '》', '［', '］']
}

/// Every character of a replacement's result comes from the text or the
/// replacement.
proof fn lemma_replaced_chars(s: Seq<char>, p: Seq<char>, r: Seq<char>, d: char)
    ensures
        replaced(s, p, r).contains(d) ==> s.contains(d) || r.contains(d),
    decreases s.len(),
{
    if p.len() == 0 {
        lemma_interleaved_chars(s, r, d);
    } else if s.len() < p.len() {
    } else if s.take(p.len() as int) == p {
        lemma_replaced_chars(s.skip(p.len() as int), p, r, d);
        let rest = replaced(s.skip(p.len() as int), p, r);
        if (r + rest).contains(d) {
            let k = choose|k: int| 0 <= k < (r + rest).len() && (r + rest)[k] == d;
            if k < r.len() {
                assert(r[k] == d);
            } else {
                assert(rest[k - r.len()] == d);
                if s.skip(p.len() as int).contains(d) {
                    let m = choose|m: int| 0 <= m < s.skip(p.len() as int).len() && s.skip(p.len() as int)[m] == d;
                    assert(s[m + p.len()] == d);
                }
            }
        }
    } else {
        lemma_replaced_chars(s.drop_first(), p, r, d);
        let rest = replaced(s.drop_first(), p, r);
        if (seq![s[0]] + rest).contains(d) {
            let k = choose|k: int| 0 <= k < (seq![s[0]] + rest).len() && (seq![s[0]] + rest)[k] == d;
            if k == 0 {
                assert(s[0] == d);
            } else {
                assert(rest[k - 1] == d);
                if s.drop_first().contains(d) {
                    let m = choose|m: int| 0 <= m < s.drop_first().len() && s.drop_first()[m] == d;
                    assert(s[m + 1] == d);
                }
            }
        }
    }
}

proof fn lemma_interleaved_chars(s: Seq<char>, r: Seq<char>, d: char)
    ensures
        interleaved(s, r).contains(d) ==> s.contains(d) || r.contains(d),
{
    lemma_each_followed_chars(s, r, d);
    let t = interleaved(s, r);
    if t.contains(d) {
        let k = choose|k: int| 0 <= k < t.len() && t[k] == d;
        if k < r.len() {
            assert(r[k] == d);
        } else {
            assert(each_followed(s, r)[k - r.len()] == d);
        }
    }
}

proof fn lemma_each_followed_chars(s: Seq<char>, r: Seq<char>, d: char)
    ensures
        each_followed(s, r).contains(d) ==> s.contains(d) || r.contains(d),
    decreases s.len(),
{
    if s.len() > 0 {
        lemma_each_followed_chars(s.drop_first(), r, d);
        let rest = each_followed(s.drop_first(), r);
        let t = each_followed(s, r);
        assert(t == seq![s[0]] + r + rest);
        if t.contains(d) {
            let k = choose|k: int| 0 <= k < t.len() && t[k] == d;
            if k == 0 {
                assert(s[0] == d);
            } else if k < 1 + r.len() {
                assert(r[k - 1] == d);
            } else {
                assert(rest[k - 1 - r.len()] == d);
                if s.drop_first().contains(d) {
                    let m = choose|m: int| 0 <= m < s.drop_first().len() && s.drop_first()[m] == d;
                    assert(s[m + 1] == d);
                }
            }
        }
    }
}

/// Replacing a single character by a text that lacks it removes it, and
/// keeps every other character that was there.
proof fn lemma_replaced_single(s: Seq<char>, c: char, r: Seq<char>, d: char)
    requires
        !r.contains(c),
    ensures
        !replaced(s, seq![c], r).contains(c),
        d != c && s.contains(d) ==> replaced(s, seq![c], r).contains(d),
    decreases s.len(),
{
    let p = seq![c];
    if s.len() < 1 {
        assert(s.len() == 0);
    } else if s.take(1) == p {
        lemma_replaced_single(s.skip(1), c, r, d);
        let rest = replaced(s.skip(1), p, r);
        let t = r + rest;
        assert(replaced(s, p, r) == t);
        if t.contains(c) {
            let k = choose|k: int| 0 <= k < t.len() && t[k] == c;
            if k < r.len() {
                assert(r[k] == c);
            } else {
                assert(rest[k - r.len()] == c);
            }
        }
        if d != c && s.contains(d) {
            let m = choose|m: int| 0 <= m < s.len() && s[m] == d;
            assert(s[0] == c) by {
                assert(s.take(1)[0] == s[0]);
            }
            assert(s.skip(1)[m - 1] == d);
            let k = choose|k: int| 0 <= k < rest.len() && rest[k] == d;
            assert(t[r.len() + k] == d);
        }
    } else {
        lemma_replaced_single(s.drop_first(), c, r, d);
        let rest = replaced(s.drop_first(), p, r);
        let t = seq![s[0]] + rest;
        assert(replaced(s, p, r) == t);
        assert(s[0] != c) by {
            if s[0] == c {
                assert(s.take(1) =~= p);
            }
        }
        if t.contains(c) {
            let k = choose|k: int| 0 <= k < t.len() && t[k] == c;
            assert(k != 0);
            assert(rest[k - 1] == c);
        }
        if d != c && s.contains(d) {
            let m = choose|m: int| 0 <= m < s.len() && s[m] == d;
            if m == 0 {
                assert(t[0] == d);
            } else {
                assert(s.drop_first()[m - 1] == d);
                let k = choose|k: int| 0 <= k < rest.len() && rest[k] == d;
                assert(t[k + 1] == d);
            }
        }
    }
}

/// A text holds a character exactly when the one-character text occurs in it.
proof fn lemma_has_char(t: Seq<char>, c: char)
    ensures
        has_substring(t, seq![c]) <==> t.contains(c),
{
    if t.contains(c) {
        let k = choose|k: int| 0 <= k < t.len() && t[k] == c;
        assert(occurs_at(t, seq![c], k)) by {
            assert(t.subrange(k, k + 1) =~= seq![c]);
        }
    }
    if has_substring(t, seq![c]) {
        let k = choose|k: int| occurs_at(t, seq![c], k);
        assert(t.subrange(k, k + 1)[0] == t[k]);
    }
}

/// The digits of a decimal number are ASCII.
proof fn lemma_decimal_ascii(n: nat)
    ensures
        forall|i: int| 0 <= i < decimal_text(n).len() ==> (#[trigger] decimal_text(n)[i] as u32) < 128,
    decreases n,
{
    if n >= 10 {
        lemma_decimal_ascii(n / 10);
        let t = decimal_text(n);
        assert(t == decimal_text(n / 10).push(crate::text::digit_char(n % 10)));
        assert forall|i: int| 0 <= i < t.len() implies (#[trigger] t[i] as u32) < 128 by {
            if i < t.len() - 1 {
                assert(t[i] == decimal_text(n / 10)[i]);
            }
        }
    }
}

/// A placeholder holds no Japanese bracket (it is ASCII).
proof fn lemma_placeholder_no_bracket(n: nat, c: char)
    requires
        (c as u32) >= 128,
    ensures
        !placeholder(n).contains(c),
{
    reveal_strlit("[P");
    reveal_strlit("]");
    lemma_decimal_ascii(n);
    let d = decimal_text(n);
    let t = placeholder(n);
    assert(t == "[P"@ + d + "]"@);
    if t.contains(c) {
        let k = choose|k: int| 0 <= k < t.len() && t[k] == c;
        if k < 2 {
            assert(t[k] == "[P"@[k]);
        } else if k < 2 + d.len() {
            assert(t[k] == d[k - 2]);
        } else {
            assert(t[k] == "]"@[k - 2 - d.len()]);
        }
    }
}

/// The shielded brackets, in masking order, are the one-character texts of
/// [`bracket_chars`].
proof fn lemma_jp_brackets_chars()
    ensures
        jp_brackets().len() == 14,
        forall|j: int| 0 <= j < 14 ==> #[trigger] jp_brackets()[j] == seq![bracket_chars()[j]],
        forall|j: int| 0 <= j < 14 ==> (#[trigger] bracket_chars()[j] as u32) >= 128,
{
    reveal_strlit("【");
    reveal_strlit("】");
    reveal_strlit("「");
    reveal_strlit("」");
    reveal_strlit("『");
    reveal_strlit("』");
    reveal_strlit("（");
    reveal_strlit("）");
    reveal_strlit("〈");
    reveal_strlit("〉");
    reveal_strlit("《");
    reveal_strlit("》");
    reveal_strlit("［");
    reveal_strlit("］");
    let b = jp_brackets();
    let c = bracket_chars();
    assert(b[0] =~= seq![c[0]]);
    assert(b[1] =~= seq![c[1]]);
    assert(b[2] =~= seq![c[2]]);
    assert(b[3] =~= seq![c[3]]);
    assert(b[4] =~= seq![c[4]]);
    assert(b[5] =~= seq![c[5]]);
    assert(b[6] =~= seq![c[6]]);
    assert(b[7] =~= seq![c[7]]);
    assert(b[8] =~= seq![c[8]]);
    assert(b[9] =~= seq![c[9]]);
    assert(b[10] =~= seq![c[10]]);
    assert(b[11] =~= seq![c[11]]);
    assert(b[12] =~= seq![c[12]]);
    assert(b[13] =~= seq![c[13]]);
}

/// The replacements after a step extend those before it.
pub open spec fn extends(after: Seq<(Seq<char>, Seq<char>)>, before: Seq<(Seq<char>, Seq<char>)>) -> bool {
    before.len() <= after.len() && forall|i: int| 0 <= i < before.len() ==> #[trigger] after[i] == before[i]
}

proof fn lemma_bracket_steps(st0: (Seq<char>, Seq<(Seq<char>, Seq<char>)>), k: nat)
    requires
        k <= 14,
    ensures
        ({
            let st = mask_brackets(st0, k);
            &&& extends(st.1, st0.1)
            &&& forall|j: int|
                0 <= j < 14 ==> {
                    let c = #[trigger] bracket_chars()[j];
                    &&& j < k ==> !st.0.contains(c)
                    &&& j < k && st0.0.contains(c) ==> exists|i: int| 0 <= i < st.1.len() && st.1[i].1 == seq![c]
                    &&& j >= k ==> (st.0.contains(c) <==> st0.0.contains(c))
                }
        }),
    decreases k,
{
    lemma_jp_brackets_chars();
    if k > 0 {
        let kk = (k - 1) as nat;
        lemma_bracket_steps(st0, kk);
        let st = mask_brackets(st0, kk);
        let ck = bracket_chars()[k - 1];
        let b = jp_brackets()[k - 1];
        assert(b == seq![ck]);
        lemma_has_char(st.0, ck);
        let ph = placeholder(st.1.len());
        lemma_placeholder_no_bracket(st.1.len(), ck);
        let st2 = mask_brackets(st0, k);
        assert(st2 == mask_if_present(st, b, b));
        assert forall|j: int|
            0 <= j < 14 implies {
                let c = #[trigger] bracket_chars()[j];
                &&& j < k ==> !st2.0.contains(c)
                &&& j < k && st0.0.contains(c) ==> exists|i: int| 0 <= i < st2.1.len() && st2.1[i].1 == seq![c]
                &&& j >= k ==> (st2.0.contains(c) <==> st0.0.contains(c))
            } by {
            let c = bracket_chars()[j];
            if has_substring(st.0, b) {
                lemma_placeholder_no_bracket(st.1.len(), c);
                lemma_replaced_single(st.0, ck, ph, c);
                lemma_replaced_chars(st.0, b, ph, c);
                assert(st2.1[st.1.len() as int] == (ph, b));
                if j < kk && st0.0.contains(c) {
                    let i = choose|i: int| 0 <= i < st.1.len() && st.1[i].1 == seq![c];
                    assert(st2.1[i] == st.1[i]);
                }
            }
        }
        assert(extends(st2.1, st0.1)) by {
            assert forall|i: int| 0 <= i < st0.1.len() implies #[trigger] st2.1[i] == st0.1[i] by {
                assert(st.1[i] == st0.1[i]);
                if has_substring(st.0, b) {
                    assert(st2.1[i] == st.1[i]);
                }
            }
        }
    }
}

/// Shielding the Japanese brackets leaves none of 【】「」『』（）〈〉《》［］
/// in the text, and every one of them that the text held is recorded as
/// the term of a replacement, so that it is put back after translation.
pub proof fn law_brackets_shielded(text: Seq<char>, reps: Seq<(Seq<char>, Seq<char>)>)
    ensures
        forall|j: int|
            0 <= j < 14 ==> !mask_brackets((text, reps), 14).0.contains(#[trigger] bracket_chars()[j]),
        forall|j: int|
            0 <= j < 14 && text.contains(#[trigger] bracket_chars()[j]) ==> exists|i: int|
                0 <= i < mask_brackets((text, reps), 14).1.len() && mask_brackets((text, reps), 14).1[i].1 == seq![
                    bracket_chars()[j],
                ],
{
    lemma_bracket_steps((text, reps), 14);
}

proof fn lemma_masked_extends(st: (Seq<char>, Seq<(Seq<char>, Seq<char>)>), target: Seq<char>, term: Seq<char>)
    ensures
        extends(masked(st, target, term).1, st.1),
        extends(mask_if_present(st, target, term).1, st.1),
{
}

proof fn lemma_each_extends(st: (Seq<char>, Seq<(Seq<char>, Seq<char>)>), terms: Seq<Seq<char>>, k: nat)
    ensures
        extends(mask_each(st, terms, k).1, st.1),
    decreases k,
{
    if k > 0 {
        lemma_each_extends(st, terms, (k - 1) as nat);
        lemma_masked_extends(mask_each(st, terms, (k - 1) as nat), terms[k - 1], terms[k - 1]);
    }
}

proof fn lemma_dict_extends(st: (Seq<char>, Seq<(Seq<char>, Seq<char>)>), d: Seq<(Seq<char>, Seq<char>)>, k: nat)
    ensures
        extends(mask_dict(st, d, k).1, st.1),
    decreases k,
{
    if k > 0 {
        lemma_dict_extends(st, d, (k - 1) as nat);
        lemma_masked_extends(mask_dict(st, d, (k - 1) as nat), d[k - 1].0, d[k - 1].1);
    }
}

proof fn lemma_numbers_extends(st: (Seq<char>, Seq<(Seq<char>, Seq<char>)>), pattern: Seq<char>, counter: Seq<char>)
    ensures
        extends(mask_numbers(st, pattern, counter).1, st.1),
{
}

proof fn lemma_extends_trans(a: Seq<(Seq<char>, Seq<char>)>, b: Seq<(Seq<char>, Seq<char>)>, c: Seq<(Seq<char>, Seq<char>)>)
    requires
        extends(b, a),
        extends(c, b),
    ensures
        extends(c, a),
{
    assert forall|i: int| 0 <= i < a.len() implies #[trigger] c[i] == a[i] by {
        assert(c[i] == b[i]);
    }
}

/// Every one of the Japanese brackets 【】「」『』（）〈〉《》［］ that a message
/// holds comes out of its shielding as the term of a replacement, so the
/// translator never sees it and it is put back after translation.
pub proof fn law_brackets_recorded(
    input: Seq<char>,
    dict: Seq<(Seq<char>, Seq<char>)>,
    romaji: Option<Seq<char>>,
    ja_name: Option<Seq<char>>,
)
    ensures
        forall|j: int|
            0 <= j < 14 && input.contains(#[trigger] bracket_chars()[j]) ==> exists|i: int|
                0 <= i < preprocessed(input, dict, romaji, ja_name).1.len() && preprocessed(input, dict, romaji, ja_name).1[i].1
                    == seq![bracket_chars()[j]],
{
    let s0 = (input, Seq::<(Seq<char>, Seq<char>)>::empty());
    lemma_bracket_steps(s0, 14);
    let s1 = mask_brackets(s0, 14);
    let s2 = mask_recruits(s1);
    if regex_valid(recruit_pattern()) {
        let found = regex_matches(recruit_pattern(), s1.0);
        lemma_each_extends(s1, found, found.len());
    }
    let s3 = rename_nickname(s2, romaji, ja_name);
    let d = by_key_length(dict);
    lemma_dict_extends(s3, d, d.len());
    let s4 = mask_dict(s3, d, d.len());
    lemma_numbers_extends(s4, "(\\d+)種"@, "종"@);
    let s5 = mask_numbers(s4, "(\\d+)種"@, "종"@);
    lemma_numbers_extends(s5, "(\\d+)人"@, "인"@);
    let s6 = mask_numbers(s5, "(\\d+)人"@, "인"@);
    lemma_numbers_extends(s6, "(\\d+)周"@, "주"@);
    let s7 = mask_numbers(s6, "(\\d+)周"@, "주"@);
    lemma_numbers_extends(s7, "(\\d+)回"@, "회"@);
    let s8 = mask_numbers(s7, "(\\d+)回"@, "회"@);
    assert(extends(s3.1, s2.1));
    lemma_extends_trans(s1.1, s2.1, s3.1);
    lemma_extends_trans(s1.1, s3.1, s4.1);
    lemma_extends_trans(s1.1, s4.1, s5.1);
    lemma_extends_trans(s1.1, s5.1, s6.1);
    lemma_extends_trans(s1.1, s6.1, s7.1);
    lemma_extends_trans(s1.1, s7.1, s8.1);
    assert(s8 == preprocessed(input, dict, romaji, ja_name));
    assert forall|j: int|
        0 <= j < 14 && input.contains(#[trigger] bracket_chars()[j]) implies exists|i: int|
            0 <= i < s8.1.len() && s8.1[i].1 == seq![bracket_chars()[j]] by {
        let i = choose|i: int| 0 <= i < s1.1.len() && s1.1[i].1 == seq![bracket_chars()[j]];
        assert(s8.1[i] == s1.1[i]);
    }
}

} // verus!
