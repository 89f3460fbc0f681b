//! Text helpers: UTF-8 decoding and character classes.

use vstd::prelude::*;
use vstd::std_specs::iter::IteratorSpec;

verus! {

/// The characters that `String::from_utf8_lossy` produces from `bytes`.
pub uninterp spec fn utf8_lossy(bytes: Seq<u8>) -> Seq<char>;

/// Decodes bytes as UTF-8, replacing invalid sequences with U+FFFD.
///
/// Trusted: calls `String::from_utf8_lossy`. The contract names its result
/// `utf8_lossy` and states what the std documentation promises: valid UTF-8 is
/// decoded exactly (into the characters `vstd::utf8::decode_utf8` gives), and
/// since every invalid sequence becomes U+FFFD, bytes that are not empty
/// give a text that is not empty.
#[verifier::external_body]
pub(crate) fn decode_utf8_lossy(bytes: &[u8]) -> (s: String)
    ensures
        s@ == utf8_lossy(bytes@),
        vstd::utf8::valid_utf8(bytes@) ==> s@ == vstd::utf8::decode_utf8(bytes@),
        bytes@.len() > 0 ==> s@.len() > 0,
{
    String::from_utf8_lossy(bytes).into_owned()
}

/// The characters of `s`, in order.
pub fn chars_of(s: &str) -> (v: Vec<char>)
    ensures
        v@ == s@,
{
    broadcast use vstd::string::axiom_spec_iter, vstd::string::next_postcondition;

    let mut it = s.chars();
    let mut v: Vec<char> = Vec::new();
    loop
        invariant
            v.len() <= s@.len(),
            v@ == s@.subrange(0, v.len() as int),
            it.remaining() == s@.skip(v.len() as int),
            it.obeys_prophetic_iter_laws(),
        ensures
            v@ == s@,
        decreases s@.len() - v.len(),
    {
        match it.next() {
            Some(c) => {
                v.push(c);
            },
            None => {
                assert(v@ =~= s@);
                break;
            },
        }
    }
    v
}

/// Whether two texts hold the same characters.
pub fn same_text(a: &str, b: &str) -> (r: bool)
    ensures
        r == (a@ == b@),
{
    let x = chars_of(a);
    let y = chars_of(b);
    if x.len() != y.len() {
        return false;
    }
    let mut i: usize = 0;
    while i < x.len()
        invariant
            x@ == a@,
            y@ == b@,
            x.len() == y.len(),
            i <= x.len(),
            forall|k: int| 0 <= k < i ==> x@[k] == y@[k],
        decreases x.len() - i,
    {
        if x[i] != y[i] {
            return false;
        }
        i += 1;
    }
    assert(x@ =~= y@);
    true
}

/// Unicode `White_Space`, the characters that `str::trim` removes.
pub open spec fn is_white_space(c: char) -> bool {
    let u = c as u32;
    (0x09 <= u <= 0x0D) || u == 0x20 || u == 0x85 || u == 0xA0 || u == 0x1680 || (0x2000 <= u
        <= 0x200A) || u == 0x2028 || u == 0x2029 || u == 0x202F || u == 0x205F || u == 0x3000
}

/// The general category Cc (control codes), as `char::is_control` reads it.
pub open spec fn is_control_char(c: char) -> bool {
    let u = c as u32;
    u <= 0x1F || (0x7F <= u <= 0x9F)
}

/// `s` without its leading white space.
pub open spec fn trim_front(s: Seq<char>) -> Seq<char>
    decreases s.len(),
{
    if s.len() > 0 && is_white_space(s[0]) {
        trim_front(s.drop_first())
    } else {
        s
    }
}

/// `s` without its trailing white space.
pub open spec fn trim_back(s: Seq<char>) -> Seq<char>
    decreases s.len(),
{
    if s.len() > 0 && is_white_space(s.last()) {
        trim_back(s.drop_last())
    } else {
        s
    }
}

/// `s` without leading and trailing white space.
pub open spec fn trimmed(s: Seq<char>) -> Seq<char> {
    trim_back(trim_front(s))
}

/// Whether `c` is white space.
pub fn white_space(c: char) -> (r: bool)
    ensures
        r == is_white_space(c),
{
    let u = c as u32;
    (0x09 <= u && u <= 0x0D) || u == 0x20 || u == 0x85 || u == 0xA0 || u == 0x1680 || (0x2000 <= u
        && u <= 0x200A) || u == 0x2028 || u == 0x2029 || u == 0x202F || u == 0x205F || u == 0x3000
}

/// Whether `c` is a control character.
pub fn control_char(c: char) -> (r: bool)
    ensures
        r == is_control_char(c),
{
    let u = c as u32;
    u <= 0x1F || (0x7F <= u && u <= 0x9F)
}

/// `s` without leading and trailing white space.
pub fn trim_text(s: &str) -> (r: String)
    ensures
        r@ == trimmed(s@),
{
    let v = chars_of(s);
    let n = v.len();
    let mut lo: usize = 0;
    assert(s@.subrange(0, n as int) =~= s@);
    while lo < n && white_space(v[lo])
        invariant
            v@ == s@,
            n == v.len(),
            lo <= n,
            trim_front(s@) == trim_front(s@.subrange(lo as int, n as int)),
        decreases n - lo,
    {
        assert(s@.subrange(lo as int, n as int).drop_first() =~= s@.subrange(lo + 1, n as int));
        lo += 1;
    }
    assert(trim_front(s@) == s@.subrange(lo as int, n as int));
    let mut hi: usize = n;
    while hi > lo && white_space(v[hi - 1])
        invariant
            v@ == s@,
            n == v.len(),
            lo <= hi <= n,
            trim_back(s@.subrange(lo as int, n as int)) == trim_back(s@.subrange(lo as int, hi as int)),
        decreases hi - lo,
    {
        assert(s@.subrange(lo as int, hi as int).drop_last() =~= s@.subrange(lo as int, hi - 1));
        hi -= 1;
    }
    s.substring_char(lo, hi).to_owned()
}

/// The text that `bytes` encode, when they are valid UTF-8.
///
/// Trusted: calls `std::str::from_utf8`, which the std documentation says
/// succeeds exactly on valid UTF-8 and then views the same bytes as text.
#[verifier::external_body]
fn utf8_text(bytes: &[u8]) -> (r: Option<&str>)
    ensures
        r is Some <==> vstd::utf8::valid_utf8(bytes@),
        r is Some ==> r->0@ == vstd::utf8::decode_utf8(bytes@),
{
    std::str::from_utf8(bytes).ok()
}

/// What `extract_game_text` gives for a payload: its text trimmed, when the
/// payload is valid UTF-8, the trimmed text is longer than one byte, and no
/// character of it is a control character.
pub open spec fn game_text(bytes: Seq<u8>) -> Option<Seq<char>> {
    if bytes.len() == 0 || !vstd::utf8::valid_utf8(bytes) {
        None
    } else {
        let t = trimmed(vstd::utf8::decode_utf8(bytes));
        if vstd::utf8::encode_utf8(t).len() > 1 && forall|i: int| 0 <= i < t.len() ==> !is_control_char(#[trigger] t[i]) {
            Some(t)
        } else {
            None
        }
    }
}

/// The readable text of a payload, or `None` for binary data and control codes.
pub fn extract_game_text(payload: &[u8]) -> (r: Option<String>)
    ensures
        crate::protocol::types::opt_text(r) == game_text(payload@),
{
    if payload.len() == 0 {
        return None;
    }
    match utf8_text(payload) {
        None => None,
        Some(text) => {
            let clean = trim_text(text);
            let chars = chars_of(clean.as_str());
            let mut i: usize = 0;
            while i < chars.len()
                invariant
                    chars@ == clean@,
                    clean@ == trimmed(vstd::utf8::decode_utf8(payload@)),
                    payload@.len() > 0,
                    vstd::utf8::valid_utf8(payload@),
                    i <= chars.len(),
                    forall|k: int| 0 <= k < i ==> !is_control_char(#[trigger] chars@[k]),
                decreases chars.len() - i,
            {
                if control_char(chars[i]) {
                    assert(!(forall|k: int| 0 <= k < clean@.len() ==> !is_control_char(#[trigger] clean@[k])));
                    return None;
                }
                i += 1;
            }
            assert(clean@ == trimmed(vstd::utf8::decode_utf8(payload@)));
            let nbytes = clean.as_str().as_bytes().len();
            assert(nbytes == vstd::utf8::encode_utf8(clean@).len());
            if nbytes > 1 {
                Some(clean)
            } else {
                None
            }
        },
    }
}

/// Appends `c` to `s`.
///
/// Trusted: calls `String::push`, which appends one character.
#[verifier::external_body]
pub(crate) fn push_char(s: &mut String, c: char)
    ensures
        final(s)@ == old(s)@.push(c),
{
    s.push(c)
}

/// The character of the decimal digit `d`.
pub open spec fn digit_char(d: nat) -> char {
    (48 + d) as char
}

/// The decimal notation of `n`, without leading zeros.
pub open spec fn decimal_text(n: nat) -> Seq<char>
    decreases n,
{
    if n < 10 {
        seq![digit_char(n)]
    } else {
        decimal_text(n / 10).push(digit_char(n % 10))
    }
}

/// The character of a decimal digit.
fn digit(d: u64) -> (c: char)
    requires
        d < 10,
    ensures
        c == digit_char(d as nat),
{
    let b: u8 = 48u8 + d as u8;
    b as char
}

/// The decimal notation of `n`, as `format!("{}", n)` writes it.
pub fn decimal(n: u64) -> (r: String)
    ensures
        r@ == decimal_text(n as nat),
    decreases n,
{
    if n < 10 {
        let mut s = String::new();
        push_char(&mut s, digit(n));
        s
    } else {
        let mut s = decimal(n / 10);
        push_char(&mut s, digit(n % 10));
        s
    }
}

/// Whether `needle` occurs in `hay` at position `i`.
pub open spec fn occurs_at(hay: Seq<char>, needle: Seq<char>, i: int) -> bool {
    0 <= i && i + needle.len() <= hay.len() && hay.subrange(i, i + needle.len()) == needle
}

/// Whether `needle` occurs somewhere in `hay` (the empty text occurs everywhere).
pub open spec fn has_substring(hay: Seq<char>, needle: Seq<char>) -> bool {
    exists|i: int| occurs_at(hay, needle, i)
}

/// Whether `needle` occurs in `hay` at `i`, for character vectors.
fn matches_at(hay: &Vec<char>, needle: &Vec<char>, i: usize) -> (r: bool)
    requires
        i <= hay@.len(),
    ensures
        r == occurs_at(hay@, needle@, i as int),
{
    if needle.len() > hay.len() - i {
        return false;
    }
    let hl = hay.len();
    let mut k: usize = 0;
    while k < needle.len()
        invariant
            hl == hay@.len(),
            i <= hay@.len(),
            i + needle@.len() <= hay@.len(),
            k <= needle@.len(),
            forall|j: int| 0 <= j < k ==> hay@[i + j] == needle@[j],
        decreases needle@.len() - k,
    {
        if hay[i + k] != needle[k] {
            assert(hay@.subrange(i as int, i + needle@.len())[k as int] != needle@[k as int]);
            return false;
        }
        k += 1;
    }
    assert(hay@.subrange(i as int, i + needle@.len()) =~= needle@);
    true
}

/// The first position at or after `from` where `needle` occurs in `hay`.
pub fn find_from(hay: &Vec<char>, needle: &Vec<char>, from: usize) -> (r: Option<usize>)
    requires
        from <= hay@.len(),
    ensures
        match r {
            Some(i) => from <= i && occurs_at(hay@, needle@, i as int) && forall|j: int|
                from <= j < i ==> !#[trigger] occurs_at(hay@, needle@, j),
            None => forall|j: int| from <= j ==> !#[trigger] occurs_at(hay@, needle@, j),
        },
{
    let mut i = from;
    loop
        invariant
            from <= i <= hay@.len(),
            forall|j: int| from <= j < i ==> !#[trigger] occurs_at(hay@, needle@, j),
        decreases hay@.len() - i,
    {
        if matches_at(hay, needle, i) {
            return Some(i);
        }
        if i == hay.len() {
            assert forall|j: int| from <= j implies !#[trigger] occurs_at(hay@, needle@, j) by {
                if j > i {
                    assert(j + needle@.len() > hay@.len());
                }
            }
            return None;
        }
        i += 1;
    }
}

/// Whether `needle` occurs in `hay`, as `str::contains` tells.
pub fn contains_text(hay: &str, needle: &str) -> (r: bool)
    ensures
        r == has_substring(hay@, needle@),
{
    let h = chars_of(hay);
    let n = chars_of(needle);
    match find_from(&h, &n, 0) {
        Some(i) => true,
        None => {
            assert forall|j: int| !occurs_at(hay@, needle@, j) by {
                if j >= 0 {
                    assert(!occurs_at(h@, n@, j));
                }
            }
            false
        },
    }
}

/// Whether `hay` starts with `prefix`.
pub fn starts_with_text(hay: &str, prefix: &str) -> (r: bool)
    ensures
        r == occurs_at(hay@, prefix@, 0),
{
    let h = chars_of(hay);
    let p = chars_of(prefix);
    matches_at(&h, &p, 0)
}

/// Each character of `s` followed by `r`.
pub open spec fn each_followed(s: Seq<char>, r: Seq<char>) -> Seq<char>
    decreases s.len(),
{
    if s.len() == 0 {
        Seq::empty()
    } else {
        seq![s[0]] + r + each_followed(s.drop_first(), r)
    }
}

/// `r` before each character of `s` and after the last, which is what
/// replacing the empty text gives.
pub open spec fn interleaved(s: Seq<char>, r: Seq<char>) -> Seq<char> {
    r + each_followed(s, r)
}

/// `s` with every occurrence of `p`, scanned from the left without overlap,
/// replaced by `r`, as `str::replace` does.
pub open spec fn replaced(s: Seq<char>, p: Seq<char>, r: Seq<char>) -> Seq<char>
    decreases s.len(),
{
    if p.len() == 0 {
        interleaved(s, r)
    } else if s.len() < p.len() {
        s
    } else if s.take(p.len() as int) == p {
        r + replaced(s.skip(p.len() as int), p, r)
    } else {
        seq![s[0]] + replaced(s.drop_first(), p, r)
    }
}

/// Where `p` does not occur in the first `k` positions of `t`, replacing
/// keeps those characters as they are.
pub proof fn lemma_replaced_skip(t: Seq<char>, p: Seq<char>, r: Seq<char>, k: int)
    requires
        p.len() > 0,
        0 <= k <= t.len(),
        forall|j: int| 0 <= j < k ==> !#[trigger] occurs_at(t, p, j),
    ensures
        replaced(t, p, r) == t.take(k) + replaced(t.skip(k), p, r),
    decreases k,
{
    if k == 0 {
        assert(t.take(0) + replaced(t.skip(0), p, r) =~= replaced(t, p, r)) by {
            assert(t.skip(0) =~= t);
        }
    } else if t.len() < p.len() {
        // Too short to hold `p`: everything is kept.
        let u = t.skip(k);
        assert(u.len() < p.len());
        assert(t.take(k) + u =~= t);
    } else {
        assert(!occurs_at(t, p, 0));
        assert(t.take(p.len() as int) != p) by {
            assert(t.subrange(0, p.len() as int) =~= t.take(p.len() as int));
        }
        let d = t.drop_first();
        assert forall|j: int| 0 <= j < k - 1 implies !#[trigger] occurs_at(d, p, j) by {
            assert(!occurs_at(t, p, j + 1));
            if j + p.len() <= d.len() {
                assert(d.subrange(j, j + p.len()) =~= t.subrange(j + 1, j + 1 + p.len()));
            }
        }
        lemma_replaced_skip(d, p, r, k - 1);
        assert(d.skip(k - 1) =~= t.skip(k));
        assert(seq![t[0]] + d.take(k - 1) =~= t.take(k));
    }
}

/// `s` with every occurrence of `from` replaced by `to`.
pub fn replace_text(s: &str, from: &str, to: &str) -> (r: String)
    ensures
        r@ == replaced(s@, from@, to@),
{
    let v = chars_of(s);
    let p = chars_of(from);
    let n = v.len();
    let mut out = String::new();
    if p.len() == 0 {
        let mut i: usize = 0;
        out.append(to);
        assert(s@.skip(0) =~= s@);
        while i < n
            invariant
                v@ == s@,
                n == v.len(),
                i <= n,
                out@ + each_followed(s@.skip(i as int), to@) == interleaved(s@, to@),
            decreases n - i,
        {
            let ghost before = out@;
            push_char(&mut out, v[i]);
            out.append(to);
            proof {
                let t = s@.skip(i as int);
                assert(t[0] == v@[i as int]);
                assert(t.drop_first() =~= s@.skip(i + 1));
                assert(out@ =~= before + seq![t[0]] + to@);
                assert(out@ + each_followed(s@.skip(i + 1), to@) =~= before + each_followed(t, to@));
            }
            i += 1;
        }
        proof {
            assert(s@.skip(n as int).len() == 0);
            assert(out@ + Seq::<char>::empty() =~= out@);
        }
        return out;
    }
    let mut i: usize = 0;
    assert(s@.skip(0) =~= s@);
    loop
        invariant
            v@ == s@,
            p@ == from@,
            p@.len() > 0,
            n == v.len(),
            i <= n,
            out@ + replaced(s@.skip(i as int), from@, to@) == replaced(s@, from@, to@),
        decreases n - i,
    {
        match find_from(&v, &p, i) {
            Some(j) => {
                let ghost t = s@.skip(i as int);
                proof {
                    assert forall|m: int| 0 <= m < j - i implies !#[trigger] occurs_at(t, from@, m) by {
                        if m + from@.len() <= t.len() {
                            assert(t.subrange(m, m + from@.len()) =~= s@.subrange(i + m, i + m + from@.len()));
                        }
                        assert(!occurs_at(s@, from@, i + m));
                    }
                    lemma_replaced_skip(t, from@, to@, j - i);
                    let u = t.skip(j - i);
                    assert(u =~= s@.skip(j as int));
                    assert(u.take(from@.len() as int) =~= s@.subrange(j as int, j + from@.len()));
                    assert(u.skip(from@.len() as int) =~= s@.skip(j + from@.len()));
                    assert(t.take(j - i) =~= s@.subrange(i as int, j as int));
                }
                out.append(s.substring_char(i, j));
                out.append(to);
                i = j + p.len();
            },
            None => {
                let ghost t = s@.skip(i as int);
                proof {
                    assert forall|m: int| 0 <= m < t.len() implies !#[trigger] occurs_at(t, from@, m) by {
                        if m + from@.len() <= t.len() {
                            assert(t.subrange(m, m + from@.len()) =~= s@.subrange(i + m, i + m + from@.len()));
                        }
                        assert(!occurs_at(s@, from@, i + m));
                    }
                    lemma_replaced_skip(t, from@, to@, t.len() as int);
                    assert(t.skip(t.len() as int).len() == 0);
                    assert(t.take(t.len() as int) =~= t);
                    assert(t.take(t.len() as int) + replaced(t.skip(t.len() as int), from@, to@) =~= t);
                }
                out.append(s.substring_char(i, n));
                return out;
            },
        }
    }
}

/// The characters that `str::to_lowercase` gives for a text.
pub uninterp spec fn lower_text(s: Seq<char>) -> Seq<char>;

/// The lower-case form of a text.
///
/// Trusted: calls `str::to_lowercase`; the result is named `lower_text`.
#[verifier::external_body]
pub(crate) fn lowercase_text(s: &str) -> (r: String)
    ensures
        r@ == lower_text(s@),
{
    s.to_lowercase()
}

} // verus!
