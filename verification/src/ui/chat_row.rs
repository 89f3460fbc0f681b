//! What a chat row shows: its colours, its time and its emphasised words.

use crate::text::{chars_of, decimal, decimal_text, find_from, occurs_at};
use crate::ui::events::{first_from, lemma_first_from, lemma_first_from_range};
use vstd::prelude::*;

verus! {

/// The text and border colour classes of a channel.
pub open spec fn channel_color_classes(channel: Seq<char>) -> (Seq<char>, Seq<char>) {
    if channel == "WORLD"@ {
        ("text-purple-500"@, "border-l-purple-500"@)
    } else if channel == "GUILD"@ {
        ("text-emerald-500"@, "border-l-emerald-500"@)
    } else if channel == "PARTY"@ {
        ("text-sky-500"@, "border-l-sky-500"@)
    } else if channel == "LOCAL"@ {
        ("text-base-content/70"@, "border-l-base-content/50"@)
    } else if channel == "SYSTEM"@ {
        ("text-warning"@, "border-l-warning"@)
    } else {
        ("text-base-content"@, "border-l-base-content"@)
    }
}

/// Each game channel has a colour of its own, the same for its text and its
/// border: world purple, guild emerald, party sky; the local channel is
/// shown in muted text, system lines in the warning colour, and anything
/// else in the plain text colour.
pub proof fn law_channel_colours(channel: Seq<char>)
    ensures
        channel == "WORLD"@ ==> channel_color_classes(channel) == ("text-purple-500"@, "border-l-purple-500"@),
        channel == "GUILD"@ ==> channel_color_classes(channel) == ("text-emerald-500"@, "border-l-emerald-500"@),
        channel == "PARTY"@ ==> channel_color_classes(channel) == ("text-sky-500"@, "border-l-sky-500"@),
        channel == "LOCAL"@ ==> channel_color_classes(channel) == ("text-base-content/70"@, "border-l-base-content/50"@),
        channel == "SYSTEM"@ ==> channel_color_classes(channel) == ("text-warning"@, "border-l-warning"@),
        channel != "WORLD"@ && channel != "GUILD"@ && channel != "PARTY"@ && channel != "LOCAL"@ && channel != "SYSTEM"@
            ==> channel_color_classes(channel) == ("text-base-content"@, "border-l-base-content"@),
{
    reveal_strlit("WORLD");
    reveal_strlit("GUILD");
    reveal_strlit("PARTY");
    reveal_strlit("LOCAL");
    reveal_strlit("SYSTEM");
    assert("WORLD"@[0] != "GUILD"@[0] && "WORLD"@[0] != "PARTY"@[0] && "WORLD"@[0] != "LOCAL"@[0] && "WORLD"@[0] != "SYSTEM"@[0]);
    assert("GUILD"@[0] != "PARTY"@[0] && "GUILD"@[0] != "LOCAL"@[0] && "GUILD"@[0] != "SYSTEM"@[0]);
    assert("PARTY"@[0] != "LOCAL"@[0] && "PARTY"@[0] != "SYSTEM"@[0] && "LOCAL"@[0] != "SYSTEM"@[0]);
}

/// The text and border colour classes of a channel.
pub fn channel_colors(channel: &str) -> (r: (&'static str, &'static str))
    ensures
        (r.0@, r.1@) == channel_color_classes(channel@),
{
    if crate::text::same_text(channel, "WORLD") {
        ("text-purple-500", "border-l-purple-500")
    } else if crate::text::same_text(channel, "GUILD") {
        ("text-emerald-500", "border-l-emerald-500")
    } else if crate::text::same_text(channel, "PARTY") {
        ("text-sky-500", "border-l-sky-500")
    } else if crate::text::same_text(channel, "LOCAL") {
        ("text-base-content/70", "border-l-base-content/50")
    } else if crate::text::same_text(channel, "SYSTEM") {
        ("text-warning", "border-l-warning")
    } else {
        ("text-base-content", "border-l-base-content")
    }
}

/// A timestamp in seconds: values above ten billion are milliseconds.
pub open spec fn as_seconds(ts: u64) -> u64 {
    if ts > 10_000_000_000 {
        ts / 1000
    } else {
        ts
    }
}

/// How long ago a message was sent, as the chat row shows it: "now" under
/// ten seconds, then seconds, minutes, hours (with minutes when not whole)
/// and days.
pub open spec fn relative_time_text(ts: u64, now: u64) -> Seq<char> {
    let m = as_seconds(ts);
    let c = as_seconds(now);
    let d: nat = if c > m {
        (c - m) as nat
    } else {
        0
    };
    if d < 10 {
        "now"@
    } else if d < 60 {
        decimal_text(d) + "s"@
    } else if d < 3600 {
        decimal_text(d / 60) + "m"@
    } else if d < 86400 {
        let mins = (d % 3600) / 60;
        if mins > 0 {
            decimal_text(d / 3600) + "h "@ + decimal_text(mins) + "m"@
        } else {
            decimal_text(d / 3600) + "h"@
        }
    } else {
        decimal_text(d / 86400) + "d"@
    }
}

/// How long ago a message sent at `ts` was, at `now` (seconds or
/// milliseconds, each).
pub fn relative_time(ts: u64, now: u64) -> (r: String)
    ensures
        r@ == relative_time_text(ts, now),
{
    let msg_secs = if ts > 10_000_000_000 {
        ts / 1000
    } else {
        ts
    };
    let current_secs = if now > 10_000_000_000 {
        now / 1000
    } else {
        now
    };
    let diff = if current_secs > msg_secs {
        current_secs - msg_secs
    } else {
        0
    };
    if diff < 10 {
        String::from_str("now")
    } else if diff < 60 {
        let mut s = decimal(diff);
        s.append("s");
        s
    } else if diff < 3600 {
        let mut s = decimal(diff / 60);
        s.append("m");
        s
    } else if diff < 86400 {
        let hours = diff / 3600;
        let mins = (diff % 3600) / 60;
        let mut s = decimal(hours);
        if mins > 0 {
            s.append("h ");
            let m = decimal(mins);
            s.append(m.as_str());
            s.append("m");
        } else {
            s.append("h");
        }
        s
    } else {
        let mut s = decimal(diff / 86400);
        s.append("d");
        s
    }
}

/// Among the first `k` keywords (empty ones skipped), the one found first at
/// or after `cur` in `s`, as (position, keyword index); on a tie the earlier
/// keyword wins.
pub open spec fn earliest_at(s: Seq<char>, cur: int, kws: Seq<Seq<char>>, k: nat) -> Option<(int, int)>
    decreases k,
{
    if k == 0 {
        None
    } else {
        let prev = earliest_at(s, cur, kws, (k - 1) as nat);
        let kw = kws[k - 1];
        if kw.len() == 0 {
            prev
        } else {
            match first_from(s, kw, cur) {
                None => prev,
                Some(idx) => match prev {
                    None => Some((idx, k - 1)),
                    Some((e, ei)) => if idx < e {
                        Some((idx, k - 1))
                    } else {
                        prev
                    },
                },
            }
        }
    }
}

/// What [`earliest_at`] finds is a non-empty keyword found there.
pub proof fn lemma_earliest_at(s: Seq<char>, cur: int, kws: Seq<Seq<char>>, k: nat)
    requires
        k <= kws.len(),
    ensures
        match earliest_at(s, cur, kws, k) {
            Some((idx, ki)) => 0 <= ki < k && kws[ki].len() > 0 && first_from(s, kws[ki], cur) == Some(idx),
            None => true,
        },
    decreases k,
{
    if k > 0 {
        lemma_earliest_at(s, cur, kws, (k - 1) as nat);
    }
}

/// The segments of `s` from `cur` on, as (text, emphasised): each earliest
/// keyword is emphasised, the text between stays plain.
pub open spec fn segments_from(s: Seq<char>, cur: int, kws: Seq<Seq<char>>) -> Seq<(Seq<char>, bool)>
    decreases s.len() - cur,
{
    if cur < 0 || cur >= s.len() {
        Seq::empty()
    } else {
        match earliest_at(s, cur, kws, kws.len()) {
            None => seq![(s.skip(cur), false)],
            Some((idx, ki)) => {
                proof {
                    lemma_earliest_at(s, cur, kws, kws.len());
                    lemma_first_from_range(s, kws[ki], cur);
                }
                let before = if idx > cur {
                    seq![(s.subrange(cur, idx), false)]
                } else {
                    Seq::empty()
                };
                before + seq![(kws[ki], true)] + segments_from(s, idx + kws[ki].len(), kws)
            },
        }
    }
}

/// How a message is drawn with its alert keywords emphasised: one plain
/// segment when there are no keywords or no text, else [`segments_from`].
pub open spec fn emphasis(text: Seq<char>, kws: Seq<Seq<char>>) -> Seq<(Seq<char>, bool)> {
    if kws.len() == 0 || text.len() == 0 {
        seq![(text, false)]
    } else {
        segments_from(text, 0, kws)
    }
}

/// The abstract value of drawn segments.
pub open spec fn segments_view(v: Seq<(String, bool)>) -> Seq<(Seq<char>, bool)> {
    v.map_values(|p: (String, bool)| (p.0@, p.1))
}

/// Splits a message into plain and emphasised segments for its alert keywords.
pub fn emphasis_segments(text: &str, keywords: &Vec<String>) -> (r: Vec<(String, bool)>)
    ensures
        segments_view(r@) == emphasis(text@, keywords@.map_values(|k: String| k@)),
{
    let ghost kws = keywords@.map_values(|k: String| k@);
    let mut out: Vec<(String, bool)> = Vec::new();
    if keywords.len() == 0 || text.is_empty() {
        out.push((String::from_str(text), false));
        assert(segments_view(out@) =~= seq![(text@, false)]);
        return out;
    }
    let v = chars_of(text);
    let n = v.len();
    let mut kv: Vec<Vec<char>> = Vec::new();
    let mut q: usize = 0;
    while q < keywords.len()
        invariant
            q <= keywords@.len(),
            kv@.len() == q,
            forall|j: int| 0 <= j < q ==> #[trigger] kv@[j]@ == kws[j],
            kws == keywords@.map_values(|k: String| k@),
        decreases keywords@.len() - q,
    {
        kv.push(chars_of(keywords[q].as_str()));
        q += 1;
    }
    let mut cur: usize = 0;
    assert(segments_view(out@) =~= Seq::<(Seq<char>, bool)>::empty());
    loop
        invariant_except_break
            v@ == text@,
            n == v.len(),
            cur <= n,
            kws == keywords@.map_values(|k: String| k@),
            kv@.len() == keywords@.len(),
            forall|j: int| 0 <= j < kv@.len() ==> #[trigger] kv@[j]@ == kws[j],
            segments_view(out@) + segments_from(text@, cur as int, kws) == segments_from(text@, 0, kws),
        ensures
            segments_view(out@) == segments_from(text@, 0, kws),
        decreases n - cur,
    {
        if cur >= n {
            assert(segments_view(out@) + Seq::<(Seq<char>, bool)>::empty() =~= segments_view(out@));
            break;
        }
        // The earliest keyword from `cur` on.
        let mut best: Option<(usize, usize)> = None;
        let mut k: usize = 0;
        while k < kv.len()
            invariant
                v@ == text@,
                cur <= n,
                n == v.len(),
                k <= kv@.len(),
                kv@.len() == kws.len(),
                forall|j: int| 0 <= j < kv@.len() ==> #[trigger] kv@[j]@ == kws[j],
                earliest_at(text@, cur as int, kws, k as nat) == match best {
                    Some((i, ki)) => Some((i as int, ki as int)),
                    None => None,
                },
            decreases kv@.len() - k,
        {
            if kv[k].len() > 0 {
                let found = find_from(&v, &kv[k], cur);
                proof {
                    lemma_first_from(text@, kws[k as int], cur as int, match found { Some(i) => Some(i as int), None => None });
                }
                match found {
                    Some(idx) => {
                        match best {
                            None => {
                                best = Some((idx, k));
                            },
                            Some((e, _)) => {
                                if idx < e {
                                    best = Some((idx, k));
                                }
                            },
                        }
                    },
                    None => {},
                }
            }
            k += 1;
        }
        match best {
            None => {
                let ghost before = segments_view(out@);
                out.push((text.substring_char(cur, n).to_owned(), false));
                assert(segments_view(out@) =~= before + seq![(text@.skip(cur as int), false)]);
                break;
            },
            Some((idx, ki)) => {
                proof {
                    lemma_earliest_at(text@, cur as int, kws, kws.len());
                    lemma_first_from_range(text@, kws[ki as int], cur as int);
                }
                let ghost before = segments_view(out@);
                if idx > cur {
                    out.push((text.substring_char(cur, idx).to_owned(), false));
                }
                out.push((keywords[ki].clone(), true));
                proof {
                    let b = if idx > cur {
                        seq![(text@.subrange(cur as int, idx as int), false)]
                    } else {
                        Seq::<(Seq<char>, bool)>::empty()
                    };
                    assert(segments_view(out@) =~= before + b + seq![(kws[ki as int], true)]);
                }
                cur = idx + kv[ki].len();
            },
        }
    }
    out
}

/// The texts of a list of segments, joined.
pub open spec fn joined_segments(v: Seq<(Seq<char>, bool)>) -> Seq<char>
    decreases v.len(),
{
    if v.len() == 0 {
        Seq::empty()
    } else {
        v[0].0 + joined_segments(v.drop_first())
    }
}

proof fn lemma_joined_one(x: (Seq<char>, bool))
    ensures
        joined_segments(seq![x]) == x.0,
{
    let v = seq![x];
    assert(v.len() == 1);
    assert(v[0] == x);
    assert(v.drop_first() =~= Seq::<(Seq<char>, bool)>::empty());
    assert(joined_segments(v.drop_first()) == Seq::<char>::empty());
    assert(joined_segments(v) == v[0].0 + joined_segments(v.drop_first()));
    assert(x.0 + Seq::<char>::empty() =~= x.0);
}

proof fn lemma_joined_concat(a: Seq<(Seq<char>, bool)>, b: Seq<(Seq<char>, bool)>)
    ensures
        joined_segments(a + b) == joined_segments(a) + joined_segments(b),
    decreases a.len(),
{
    if a.len() == 0 {
        assert(a + b =~= b);
    } else {
        assert((a + b).drop_first() =~= a.drop_first() + b);
        lemma_joined_concat(a.drop_first(), b);
        assert(a[0].0 + (joined_segments(a.drop_first()) + joined_segments(b)) =~= (a[0].0 + joined_segments(
            a.drop_first(),
        )) + joined_segments(b));
    }
}

proof fn lemma_segments_cover(s: Seq<char>, cur: int, kws: Seq<Seq<char>>)
    requires
        0 <= cur <= s.len(),
    ensures
        joined_segments(segments_from(s, cur, kws)) == s.skip(cur),
    decreases s.len() - cur,
{
    if cur < s.len() {
        match earliest_at(s, cur, kws, kws.len()) {
            None => {
                lemma_joined_one((s.skip(cur), false));
            },
            Some((idx, ki)) => {
                lemma_earliest_at(s, cur, kws, kws.len());
                lemma_first_from_range(s, kws[ki], cur);
                let next = idx + kws[ki].len();
                lemma_segments_cover(s, next, kws);
                let before = if idx > cur {
                    seq![(s.subrange(cur, idx), false)]
                } else {
                    Seq::<(Seq<char>, bool)>::empty()
                };
                lemma_joined_concat(before + seq![(kws[ki], true)], segments_from(s, next, kws));
                lemma_joined_concat(before, seq![(kws[ki], true)]);
                lemma_joined_one((kws[ki], true));
                assert(joined_segments(before) =~= s.subrange(cur, idx)) by {
                    if idx > cur {
                        lemma_joined_one((s.subrange(cur, idx), false));
                    }
                }
                assert(s.subrange(idx, next) == kws[ki]);
                assert(s.subrange(cur, idx) + kws[ki] + s.skip(next) =~= s.skip(cur));
            },
        }
    } else {
        assert(s.skip(cur).len() == 0);
    }
}

/// Emphasising keywords never changes the text: the segments joined give
/// the message back.
pub proof fn law_segments_cover_text(text: Seq<char>, kws: Seq<Seq<char>>)
    ensures
        joined_segments(emphasis(text, kws)) == text,
{
    if kws.len() == 0 || text.len() == 0 {
        lemma_joined_one((text, false));
    } else {
        lemma_segments_cover(text, 0, kws);
        assert(text.skip(0) =~= text);
    }
}

} // verus!
