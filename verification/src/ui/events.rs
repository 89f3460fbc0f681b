//! What the frontend does with an incoming chat message: cleaning its text,
//! listing it in the tabs, and telling whether it is seen or needs a badge.

use crate::protocol::types::{ChatMessage, ChatMessageView};
use crate::text::{chars_of, contains_text, find_from, has_substring, occurs_at, same_text, starts_with_text};
use std::collections::VecDeque;
use vstd::prelude::*;

verus! {

/// The first position at or after `i` where `p` occurs in `s`.
pub open spec fn first_from(s: Seq<char>, p: Seq<char>, i: int) -> Option<int>
    decreases s.len() + 1 - i,
{
    if i < 0 || i > s.len() {
        None
    } else if occurs_at(s, p, i) {
        Some(i)
    } else {
        first_from(s, p, i + 1)
    }
}

/// What [`first_from`] gives, told by where `p` occurs.
pub proof fn lemma_first_from(s: Seq<char>, p: Seq<char>, from: int, r: Option<int>)
    requires
        0 <= from <= s.len(),
        match r {
            Some(i) => from <= i && occurs_at(s, p, i) && forall|j: int| from <= j < i ==> !#[trigger] occurs_at(s, p, j),
            None => forall|j: int| from <= j ==> !#[trigger] occurs_at(s, p, j),
        },
    ensures
        first_from(s, p, from) == r,
    decreases s.len() + 1 - from,
{
    match r {
        Some(i) => {
            if i > from {
                assert(!occurs_at(s, p, from));
                lemma_first_from(s, p, from + 1, r);
            }
        },
        None => {
            assert(!occurs_at(s, p, from));
            if from < s.len() {
                lemma_first_from(s, p, from + 1, r);
            }
        },
    }
}

/// Where [`first_from`] finds `p`, it occurs there, at or after `i`.
pub proof fn lemma_first_from_range(s: Seq<char>, p: Seq<char>, i: int)
    ensures
        match first_from(s, p, i) {
            Some(k) => i <= k && occurs_at(s, p, k),
            None => true,
        },
    decreases s.len() + 1 - i,
{
    if 0 <= i <= s.len() && !occurs_at(s, p, i) {
        lemma_first_from_range(s, p, i + 1);
    }
}

/// The placeholder shown for an inline emoji.
pub open spec fn emoji_mark() -> Seq<char> {
    "[이모지]"@
}

/// The text from `cur` on with each inline sprite tag ("<sprite=...>")
/// replaced by [`emoji_mark`]; an unclosed tag and what follows stay.
pub open spec fn sprites_from(s: Seq<char>, cur: int) -> Seq<char>
    decreases s.len() - cur,
{
    if 0 <= cur <= s.len() {
        match first_from(s, "<sprite="@, cur) {
            None => s.skip(cur),
            Some(i) => match first_from(s, ">"@, i) {
                None => s.skip(cur),
                Some(j) => {
                    proof {
                        reveal_strlit(">");
                        lemma_first_from_range(s, "<sprite="@, cur);
                        lemma_first_from_range(s, ">"@, i);
                    }
                    s.subrange(cur, i) + emoji_mark() + sprites_from(s, j + 1)
                },
            },
        }
    } else {
        Seq::empty()
    }
}

/// Replaces each inline sprite tag of `msg` by [`emoji_mark`].
fn replace_sprites(msg: &str) -> (r: String)
    ensures
        r@ == sprites_from(msg@, 0),
{
    proof {
        reveal_strlit(">");
        assert(">"@.len() == 1);
    }
    let v = chars_of(msg);
    let open_tag = chars_of("<sprite=");
    let close = chars_of(">");
    let n = v.len();
    let mut out = String::new();
    let mut cur: usize = 0;
    loop
        invariant_except_break
            v@ == msg@,
            open_tag@ == "<sprite="@,
            close@ == ">"@,
            close@.len() == 1,
            n == v.len(),
            cur <= n,
            out@ + sprites_from(msg@, cur as int) == sprites_from(msg@, 0),
        ensures
            out@ == sprites_from(msg@, 0),
        decreases n - cur,
    {
        let found = find_from(&v, &open_tag, cur);
        proof {
            lemma_first_from(msg@, "<sprite="@, cur as int, match found { Some(i) => Some(i as int), None => None });
        }
        match found {
            None => {
                out.append(msg.substring_char(cur, n));
                assert(out@ =~= sprites_from(msg@, 0));
                break;
            },
            Some(i) => {
                let end = find_from(&v, &close, i);
                proof {
                    lemma_first_from(msg@, ">"@, i as int, match end { Some(j) => Some(j as int), None => None });
                }
                match end {
                    None => {
                        out.append(msg.substring_char(cur, n));
                        assert(out@ =~= sprites_from(msg@, 0));
                        break;
                    },
                    Some(j) => {
                        assert(j + 1 <= n);
                        let ghost before = out@;
                        out.append(msg.substring_char(cur, i));
                        out.append("[이모지]");
                        proof {
                            assert(out@ =~= before + msg@.subrange(cur as int, i as int) + emoji_mark());
                        }
                        cur = j + 1;
                    },
                }
            },
        }
    }
    out
}

/// A message's text as the chat shows it, and whether its translation is
/// dropped: a sticker ("emojiPic=...") shows as "[스티커]", inline sprite
/// tags as [`emoji_mark`]; either change drops the translation.
pub open spec fn cleaned_chat_text(m: Seq<char>) -> (Seq<char>, bool) {
    let sticker = occurs_at(m, "emojiPic="@, 0);
    let m1 = if sticker {
        "[스티커]"@
    } else {
        m
    };
    if has_substring(m1, "<sprite="@) {
        (sprites_from(m1, 0), true)
    } else {
        (m1, sticker)
    }
}

/// Cleans a message's text for display: stickers and inline sprites become
/// marks. Returns the text and whether the translation is to be dropped.
pub fn clean_chat_text(message: &str) -> (r: (String, bool))
    ensures
        (r.0@, r.1) == cleaned_chat_text(message@),
{
    let sticker = starts_with_text(message, "emojiPic=");
    let m1 = if sticker {
        String::from_str("[스티커]")
    } else {
        String::from_str(message)
    };
    if contains_text(m1.as_str(), "<sprite=") {
        (replace_sprites(m1.as_str()), true)
    } else {
        (m1, sticker)
    }
}

/// The tab that lists every message.
pub open spec fn all_tab() -> Seq<char> {
    "전체"@
}

/// The tab that lists the channels picked by the user.
pub open spec fn custom_tab() -> Seq<char> {
    "커스텀"@
}

/// Whether a tab's limit is left out of the aggregate limit.
pub open spec fn aggregate_excluded(name: Seq<char>) -> bool {
    name == all_tab() || name == custom_tab() || name == "SYSTEM"@
}

/// The sum of the first `k` limits of the channel tabs.
pub open spec fn channel_limit_sum(limits: Seq<(Seq<char>, usize)>, k: nat) -> nat
    decreases k,
{
    if k == 0 {
        0
    } else {
        channel_limit_sum(limits, (k - 1) as nat) + if aggregate_excluded(limits[k - 1].0) {
            0nat
        } else {
            limits[k - 1].1 as nat
        }
    }
}

/// Whether no tab has two limits (the window keeps them in a map by tab
/// name).
pub open spec fn tab_names_unique(limits: Seq<(Seq<char>, usize)>) -> bool {
    forall|i: int, j: int| 0 <= i < j < limits.len() ==> #[trigger] limits[i].0 != #[trigger] limits[j].0
}

/// The abstract value of the tab limits.
pub open spec fn limits_view(limits: Seq<(String, usize)>) -> Seq<(Seq<char>, usize)> {
    limits.map_values(|e: (String, usize)| (e.0@, e.1))
}

/// The limit of the all and custom tabs: the sum of the channel tabs'
/// limits, or 2000 when that is zero.
pub open spec fn aggregate_limit_of(limits: Seq<(Seq<char>, usize)>) -> nat {
    let s = channel_limit_sum(limits, limits.len());
    if s == 0 {
        2000
    } else {
        s
    }
}

/// The limit of the all and custom tabs, from the tabs' limits.
pub fn aggregate_limit(limits: &Vec<(String, usize)>) -> (r: usize)
    requires
        tab_names_unique(limits_view(limits@)),
        channel_limit_sum(limits_view(limits@), limits@.len()) <= usize::MAX,
    ensures
        r == aggregate_limit_of(limits_view(limits@)),
{
    let ghost lv = limits_view(limits@);
    let mut sum: usize = 0;
    let mut i: usize = 0;
    while i < limits.len()
        invariant
            lv == limits_view(limits@),
            i <= limits@.len(),
            sum == channel_limit_sum(lv, i as nat),
            channel_limit_sum(lv, limits@.len() as nat) <= usize::MAX,
        decreases limits@.len() - i,
    {
        proof {
            lemma_limit_sum_monotone(lv, (i + 1) as nat, limits@.len() as nat);
        }
        let name = limits[i].0.as_str();
        if !(same_text(name, "전체") || same_text(name, "커스텀") || same_text(name, "SYSTEM")) {
            sum = sum + limits[i].1;
        }
        i += 1;
    }
    if sum == 0 {
        2000
    } else {
        sum
    }
}

/// The partial sums of the channel limits grow with `k`.
pub proof fn lemma_limit_sum_monotone(limits: Seq<(Seq<char>, usize)>, k: nat, m: nat)
    requires
        k <= m,
    ensures
        channel_limit_sum(limits, k) <= channel_limit_sum(limits, m),
    decreases m - k,
{
    if k < m {
        lemma_limit_sum_monotone(limits, k, (m - 1) as nat);
    }
}

/// The limit configured for a tab (first entry with that name), if any.
pub open spec fn limit_of(limits: Seq<(Seq<char>, usize)>, name: Seq<char>) -> Option<usize>
    decreases limits.len(),
{
    if limits.len() == 0 {
        None
    } else if limits[0].0 == name {
        Some(limits[0].1)
    } else {
        limit_of(limits.drop_first(), name)
    }
}

/// The limit of a channel's tab: the configured one, else 500.
pub fn channel_limit(limits: &Vec<(String, usize)>, channel: &str) -> (r: usize)
    requires
        tab_names_unique(limits_view(limits@)),
    ensures
        r == match limit_of(limits_view(limits@), channel@) {
            Some(l) => l,
            None => 500,
        },
{
    let ghost lv = limits_view(limits@);
    let mut i: usize = 0;
    assert(lv.skip(0) =~= lv);
    while i < limits.len()
        invariant
            lv == limits_view(limits@),
            i <= limits@.len(),
            limit_of(lv, channel@) == limit_of(lv.skip(i as int), channel@),
        decreases limits@.len() - i,
    {
        assert(lv.skip(i as int).drop_first() =~= lv.skip(i + 1));
        assert(lv.skip(i as int)[0] == lv[i as int]);
        if same_text(limits[i].0.as_str(), channel) {
            return limits[i].1;
        }
        i += 1;
    }
    500
}

/// The pids a tab lists (first entry with that name; none when absent).
pub open spec fn tab_of(tabs: Seq<(Seq<char>, Seq<u64>)>, name: Seq<char>) -> Seq<u64>
    decreases tabs.len(),
{
    if tabs.len() == 0 {
        Seq::empty()
    } else if tabs[0].0 == name {
        tabs[0].1
    } else {
        tab_of(tabs.drop_first(), name)
    }
}

/// A tab after `pid` is appended and the oldest pids dropped to stay within `limit`.
pub open spec fn bounded_push(s: Seq<u64>, pid: u64, limit: nat) -> Seq<u64> {
    let t = s.push(pid);
    if t.len() > limit {
        t.skip(t.len() - limit)
    } else {
        t
    }
}

/// The pid lists of the chat tabs, by tab name.
pub struct TabViews {
    pub tabs: Vec<(String, VecDeque<u64>)>,
}

/// The abstract value of tab lists.
pub open spec fn tabs_view(tabs: Seq<(String, VecDeque<u64>)>) -> Seq<(Seq<char>, Seq<u64>)> {
    tabs.map_values(|t: (String, VecDeque<u64>)| (t.0@, t.1@))
}

impl View for TabViews {
    type V = Seq<(Seq<char>, Seq<u64>)>;

    open spec fn view(&self) -> Seq<(Seq<char>, Seq<u64>)> {
        tabs_view(self.tabs@)
    }
}

/// Where `tab_of` reads a tab: its first entry, else the end.
pub proof fn lemma_tab_of_at(tabs: Seq<(Seq<char>, Seq<u64>)>, name: Seq<char>, i: int)
    requires
        0 <= i <= tabs.len(),
        forall|j: int| 0 <= j < i ==> #[trigger] tabs[j].0 != name,
        i < tabs.len() ==> tabs[i].0 == name,
    ensures
        tab_of(tabs, name) == if i < tabs.len() {
            tabs[i].1
        } else {
            Seq::empty()
        },
    decreases i,
{
    if i > 0 {
        assert(tabs[0].0 != name);
        let d = tabs.drop_first();
        assert forall|j: int| 0 <= j < i - 1 implies #[trigger] d[j].0 != name by {
            assert(d[j] == tabs[j + 1]);
        }
        lemma_tab_of_at(d, name, i - 1);
    }
}

/// Replacing the entry at `i` of `name`'s first place, or appending a new
/// entry for an absent name, leaves every other tab as it was.
pub proof fn lemma_tab_of_other(tabs: Seq<(Seq<char>, Seq<u64>)>, t2: Seq<(Seq<char>, Seq<u64>)>, name: Seq<char>, i: int, other: Seq<char>)
    requires
        0 <= i <= tabs.len(),
        forall|j: int| 0 <= j < i ==> #[trigger] tabs[j].0 != name,
        i < tabs.len() ==> tabs[i].0 == name,
        t2.len() == if i < tabs.len() {
            tabs.len()
        } else {
            tabs.len() + 1
        },
        forall|j: int| 0 <= j < t2.len() && j != i ==> #[trigger] t2[j] == tabs[j],
        t2[i].0 == name,
        other != name,
    ensures
        tab_of(t2, other) == tab_of(tabs, other),
    decreases tabs.len(),
{
    if tabs.len() == 0 {
        assert(t2.len() == 1);
        assert(t2[0].0 != other);
        assert(t2.drop_first().len() == 0);
        assert(tab_of(t2.drop_first(), other) == Seq::<u64>::empty());
    } else if i == 0 {
        assert(t2.drop_first() =~= tabs.drop_first());
        assert(t2[0].0 != other);
        assert(tabs[0].0 != other);
    } else {
        assert(t2[0] == tabs[0]);
        if tabs[0].0 != other {
            let d = tabs.drop_first();
            let d2 = t2.drop_first();
            assert forall|j: int| 0 <= j < i - 1 implies #[trigger] d[j].0 != name by {
                assert(d[j] == tabs[j + 1]);
            }
            assert forall|j: int| 0 <= j < d2.len() && j != i - 1 implies #[trigger] d2[j] == d[j] by {
                assert(d2[j] == t2[j + 1]);
                assert(d[j] == tabs[j + 1]);
            }
            assert(d2[i - 1] == t2[i]);
            if i - 1 < d.len() {
                assert(d[i - 1] == tabs[i]);
            }
            lemma_tab_of_other(d, d2, name, i - 1, other);
        }
    }
}

impl TabViews {
    /// No tabs yet.
    pub fn new() -> (t: Self)
        ensures
            t@.len() == 0,
    {
        TabViews { tabs: Vec::new() }
    }

    /// Appends `pid` to the tab `name` (created when absent), dropping its
    /// oldest pids beyond `limit`.
    pub fn push_bounded(&mut self, name: &str, pid: u64, limit: usize)
        ensures
            tab_of(final(self)@, name@) == bounded_push(tab_of(old(self)@, name@), pid, limit as nat),
            forall|other: Seq<char>| other != name@ ==> tab_of(final(self)@, other) == tab_of(old(self)@, other),
    {
        let ghost before = self@;
        let mut i: usize = 0;
        loop
            invariant_except_break
                before == self@,
                i <= self.tabs@.len(),
                forall|j: int| 0 <= j < i ==> #[trigger] self@[j].0 != name@,
            ensures
                before == self@,
                i <= self.tabs@.len(),
                forall|j: int| 0 <= j < i ==> #[trigger] self@[j].0 != name@,
                i < self.tabs@.len() ==> self@[i as int].0 == name@,
            decreases self.tabs@.len() - i,
        {
            if i >= self.tabs.len() {
                break;
            }
            if same_text(self.tabs[i].0.as_str(), name) {
                break;
            }
            i += 1;
        }
        let mut tab: VecDeque<u64> = VecDeque::new();
        let n = self.tabs.len();
        if i < n {
            std::mem::swap(&mut tab, &mut self.tabs[i].1);
        }
        proof {
            lemma_tab_of_at(before, name@, i as int);
        }
        let ghost start = tab@;
        tab.push_back(pid);
        while tab.len() > limit
            invariant
                tab@.len() < start.push(pid).len() ==> tab@.len() >= limit,
                start.push(pid).len() >= tab@.len(),
                tab@ == start.push(pid).skip(start.push(pid).len() - tab@.len()),
            decreases tab@.len(),
        {
            let _ = tab.pop_front();
        }
        proof {
            let t = start.push(pid);
            if t.len() > limit {
                assert(tab@.len() == limit);
            } else {
                assert(t.skip(0) =~= t);
            }
        }
        if i < n {
            self.tabs.set(i, (String::from_str(name), tab));
        } else {
            self.tabs.push((String::from_str(name), tab));
        }
        proof {
            let t2 = self@;
            assert forall|j: int| 0 <= j < t2.len() && j != i implies #[trigger] t2[j] == before[j] by {}
            lemma_tab_of_at(t2, name@, i as int);
            assert forall|other: Seq<char>| other != name@ implies tab_of(t2, other) == tab_of(before, other) by {
                lemma_tab_of_other(before, t2, name@, i as int, other);
            }
        }
    }

    /// Whether some tab still lists `pid` (a message no tab lists is freed).
    pub fn lists(&self, pid: u64) -> (r: bool)
        ensures
            r == exists|i: int, j: int| 0 <= i < self@.len() && 0 <= j < self@[i].1.len() && #[trigger] self@[i].1[j] == pid,
    {
        let mut i: usize = 0;
        while i < self.tabs.len()
            invariant
                i <= self.tabs@.len(),
                self@.len() == self.tabs@.len(),
                forall|a: int, b: int| 0 <= a < i && 0 <= b < self@[a].1.len() ==> #[trigger] self@[a].1[b] != pid,
            decreases self.tabs@.len() - i,
        {
            let tab = &self.tabs[i].1;
            let mut k: usize = 0;
            while k < tab.len()
                invariant
                    i < self.tabs@.len(),
                    self@.len() == self.tabs@.len(),
                    k <= tab@.len(),
                    tab@ == self@[i as int].1,
                    forall|b: int| 0 <= b < k ==> #[trigger] tab@[b] != pid,
                decreases tab@.len() - k,
            {
                if tab[k] == pid {
                    assert(self@[i as int].1[k as int] == pid);
                    return true;
                }
                k += 1;
            }
            i += 1;
        }
        false
    }
}

/// Whether `name` is one of the user's custom channels.
pub open spec fn in_filters(filters: Seq<Seq<char>>, name: Seq<char>) -> bool {
    exists|i: int| 0 <= i < filters.len() && #[trigger] filters[i] == name
}

/// Whether the list of custom channels holds `channel`.
pub fn filters_contain(filters: &Vec<String>, channel: &str) -> (r: bool)
    ensures
        r == in_filters(filters@.map_values(|f: String| f@), channel@),
{
    let ghost fv = filters@.map_values(|f: String| f@);
    let mut i: usize = 0;
    while i < filters.len()
        invariant
            fv == filters@.map_values(|f: String| f@),
            i <= filters@.len(),
            forall|j: int| 0 <= j < i ==> #[trigger] fv[j] != channel@,
        decreases filters@.len() - i,
    {
        if same_text(filters[i].as_str(), channel) {
            assert(fv[i as int] == channel@);
            return true;
        }
        i += 1;
    }
    false
}

/// Lists a new message in the tabs: the all tab (bounded by `aggregate`),
/// its channel's tab (bounded by that tab's limit, 500 when none is set), and
/// the custom tab (bounded by `aggregate`) when its channel is a custom one.
pub fn route_message(
    tabs: &mut TabViews,
    pid: u64,
    channel: &str,
    limits: &Vec<(String, usize)>,
    filters: &Vec<String>,
    aggregate: usize,
)
    requires
        tab_names_unique(limits_view(limits@)),
    ensures
        ({
            let t0 = old(tabs)@;
            let t1 = final(tabs)@;
            let spec_limit = match limit_of(limits_view(limits@), channel@) {
                Some(l) => l,
                None => 500,
            };
            let custom = in_filters(filters@.map_values(|f: String| f@), channel@);
            forall|name: Seq<char>|
                #![trigger tab_of(t1, name)]
                tab_of(t1, name) == {
                    let a = if name == all_tab() {
                        bounded_push(tab_of(t0, name), pid, aggregate as nat)
                    } else {
                        tab_of(t0, name)
                    };
                    let b = if name == channel@ {
                        bounded_push(a, pid, spec_limit as nat)
                    } else {
                        a
                    };
                    if custom && name == custom_tab() {
                        bounded_push(b, pid, aggregate as nat)
                    } else {
                        b
                    }
                }
        }),
{
    tabs.push_bounded("전체", pid, aggregate);
    let spec_limit = channel_limit(limits, channel);
    tabs.push_bounded(channel, pid, spec_limit);
    let custom = filters_contain(filters, channel);
    if custom {
        tabs.push_bounded("커스텀", pid, aggregate);
    }
}

/// The tab names the frontend shows for the channels.
pub open spec fn tab_channel(active_tab: Seq<char>) -> Seq<char> {
    if active_tab == "로컬"@ {
        "LOCAL"@
    } else if active_tab == "파티"@ {
        "PARTY"@
    } else if active_tab == "길드"@ {
        "GUILD"@
    } else {
        "WORLD"@
    }
}

/// Whether a message of `channel` shows in the active tab: always in the
/// all tab, in the custom tab for custom channels, never in the system tab,
/// and in a channel tab for its own channel.
pub open spec fn visible_in(active_tab: Seq<char>, channel: Seq<char>, filters: Seq<Seq<char>>) -> bool {
    if active_tab == all_tab() {
        true
    } else if active_tab == custom_tab() {
        in_filters(filters, channel)
    } else if active_tab == "시스템"@ {
        false
    } else {
        channel == tab_channel(active_tab)
    }
}

/// In a channel tab a message shows exactly when its channel is the tab's:
/// 로컬 lists LOCAL, 파티 PARTY, 길드 GUILD and 월드 WORLD; the all tab shows
/// everything, the custom tab the custom channels, the system tab no chat.
pub proof fn law_tab_visibility(channel: Seq<char>, filters: Seq<Seq<char>>)
    ensures
        visible_in("로컬"@, channel, filters) <==> channel == "LOCAL"@,
        visible_in("파티"@, channel, filters) <==> channel == "PARTY"@,
        visible_in("길드"@, channel, filters) <==> channel == "GUILD"@,
        visible_in("월드"@, channel, filters) <==> channel == "WORLD"@,
        visible_in("전체"@, channel, filters),
        visible_in("커스텀"@, channel, filters) <==> in_filters(filters, channel),
        !visible_in("시스템"@, channel, filters),
{
    reveal_strlit("로컬");
    reveal_strlit("파티");
    reveal_strlit("길드");
    reveal_strlit("월드");
    reveal_strlit("전체");
    reveal_strlit("커스텀");
    reveal_strlit("시스템");
    assert("전체"@.len() == 2 && "커스텀"@.len() == 3 && "시스템"@.len() == 3);
    assert("로컬"@[0] != "전체"@[0] && "파티"@[0] != "전체"@[0] && "길드"@[0] != "전체"@[0] && "월드"@[0] != "전체"@[0]);
    assert("커스텀"@[0] != "시스템"@[0]);
    assert("로컬"@[0] != "파티"@[0] && "로컬"@[0] != "길드"@[0] && "파티"@[0] != "길드"@[0]);
}

/// Whether a message of `channel` shows in the active tab.
pub fn is_visible(active_tab: &str, channel: &str, filters: &Vec<String>) -> (r: bool)
    ensures
        r == visible_in(active_tab@, channel@, filters@.map_values(|f: String| f@)),
{
    if same_text(active_tab, "전체") {
        true
    } else if same_text(active_tab, "커스텀") {
        filters_contain(filters, channel)
    } else if same_text(active_tab, "시스템") {
        false
    } else {
        let key = if same_text(active_tab, "로컬") {
            "LOCAL"
        } else if same_text(active_tab, "파티") {
            "PARTY"
        } else if same_text(active_tab, "길드") {
            "GUILD"
        } else {
            "WORLD"
        };
        same_text(channel, key)
    }
}

/// How a new message changes the unread counters.
#[derive(Clone, Copy, Debug, PartialEq, Eq, Structural)]
pub enum UnreadEffect {
    /// Seen tab, scrolled up: one more unread message.
    CountUnread,
    /// Another tab: one more on its channel's badge.
    CountBadge,
    /// Seen at the bottom of the tab: nothing to count.
    Nothing,
}

/// How a new message changes the unread counters, given whether it shows in
/// the active tab and whether the view is at the bottom.
pub fn unread_effect(visible: bool, at_bottom: bool) -> (r: UnreadEffect)
    ensures
        r == if visible && !at_bottom {
            UnreadEffect::CountUnread
        } else if !visible {
            UnreadEffect::CountBadge
        } else {
            UnreadEffect::Nothing
        },
{
    if visible && !at_bottom {
        UnreadEffect::CountUnread
    } else if !visible {
        UnreadEffect::CountBadge
    } else {
        UnreadEffect::Nothing
    }
}

/// Whether a message holds one of the alert keywords (the empty keyword is
/// in every message).
pub open spec fn mentions(message: Seq<char>, keywords: Seq<Seq<char>>) -> bool {
    exists|i: int| 0 <= i < keywords.len() && has_substring(message, #[trigger] keywords[i])
}

/// Whether a message holds one of the alert keywords.
pub fn mentions_keyword(message: &str, keywords: &Vec<String>) -> (r: bool)
    ensures
        r == mentions(message@, keywords@.map_values(|k: String| k@)),
{
    let ghost kv = keywords@.map_values(|k: String| k@);
    let mut i: usize = 0;
    while i < keywords.len()
        invariant
            kv == keywords@.map_values(|k: String| k@),
            i <= keywords@.len(),
            forall|j: int| 0 <= j < i ==> !has_substring(message@, #[trigger] kv[j]),
        decreases keywords@.len() - i,
    {
        if contains_text(message, keywords[i].as_str()) {
            assert(has_substring(message@, kv[i as int]));
            return true;
        }
        i += 1;
    }
    false
}

/// A tab never lists more than its limit, and after a push with a non-zero
/// limit the new pid is its newest entry.
pub proof fn law_tab_within_limit(s: Seq<u64>, pid: u64, limit: nat)
    ensures
        bounded_push(s, pid, limit).len() <= limit,
        limit > 0 ==> bounded_push(s, pid, limit).last() == pid,
{
}

/// The pids that tab `name` lists after the first `k` restored messages are
/// routed: each goes to the all tab, its channel's tab and (for a custom
/// channel) the custom tab, every tab bounded by the chat limit.
pub open spec fn history_tab(
    ms: Seq<ChatMessageView>,
    k: nat,
    limit: nat,
    filters: Seq<Seq<char>>,
    name: Seq<char>,
) -> Seq<u64>
    decreases k,
{
    if k == 0 || k > ms.len() {
        Seq::empty()
    } else {
        let prev = history_tab(ms, (k - 1) as nat, limit, filters, name);
        let m = ms[k - 1];
        let a = if name == all_tab() {
            bounded_push(prev, m.pid, limit)
        } else {
            prev
        };
        let b = if name == m.channel {
            bounded_push(a, m.pid, limit)
        } else {
            a
        };
        if in_filters(filters, m.channel) && name == custom_tab() {
            bounded_push(b, m.pid, limit)
        } else {
            b
        }
    }
}

/// Whether some tab of `tabs` lists `pid`.
pub open spec fn listed(tabs: Seq<(Seq<char>, Seq<u64>)>, pid: u64) -> bool {
    exists|i: int, j: int| 0 <= i < tabs.len() && 0 <= j < tabs[i].1.len() && #[trigger] tabs[i].1[j] == pid
}

/// A restored message as the chat shows it: its text cleaned of stickers
/// and sprites.
pub open spec fn cleaned_message(m: ChatMessageView) -> ChatMessageView {
    ChatMessageView { message: cleaned_chat_text(m.message).0, ..m }
}

/// The first `k` restored messages, cleaned, that some tab of `tabs` lists,
/// in order.
pub open spec fn kept_history(ms: Seq<ChatMessageView>, tabs: Seq<(Seq<char>, Seq<u64>)>, k: nat) -> Seq<ChatMessageView>
    decreases k,
{
    if k == 0 || k > ms.len() {
        Seq::empty()
    } else {
        let prev = kept_history(ms, tabs, (k - 1) as nat);
        if listed(tabs, ms[k - 1].pid) {
            prev.push(cleaned_message(ms[k - 1]))
        } else {
            prev
        }
    }
}

proof fn lemma_empty_tab(t: Seq<(Seq<char>, Seq<u64>)>, name: Seq<char>)
    requires
        t.len() == 0,
    ensures
        tab_of(t, name) == Seq::<u64>::empty(),
{
}

/// Rebuilds the chat window from the restored history: every message is
/// cleaned and routed to the all tab, its channel's tab and (for a custom
/// channel) the custom tab, each tab keeping at most `limit` pids; the
/// messages that no tab lists any more are dropped.
pub fn hydrate_history(history: &Vec<ChatMessage>, limit: usize, filters: &Vec<String>) -> (r: (
    Vec<ChatMessage>,
    TabViews,
))
    ensures
        ({
            let ms = history@.map_values(|m: ChatMessage| m@);
            let fv = filters@.map_values(|f: String| f@);
            &&& forall|name: Seq<char>|
                #[trigger] tab_of(r.1@, name) == history_tab(ms, ms.len(), limit as nat, fv, name)
            &&& r.0@.map_values(|m: ChatMessage| m@) == kept_history(ms, r.1@, ms.len())
        }),
{
    let ghost ms = history@.map_values(|m: ChatMessage| m@);
    let ghost fv = filters@.map_values(|f: String| f@);
    let mut tabs = TabViews::new();
    assert forall|name: Seq<char>| #[trigger] tab_of(tabs@, name) == history_tab(ms, 0, limit as nat, fv, name) by {
        lemma_empty_tab(tabs@, name);
    }
    let mut i: usize = 0;
    while i < history.len()
        invariant
            i <= history@.len(),
            ms == history@.map_values(|m: ChatMessage| m@),
            fv == filters@.map_values(|f: String| f@),
            forall|name: Seq<char>| #[trigger] tab_of(tabs@, name) == history_tab(ms, i as nat, limit as nat, fv, name),
        decreases history@.len() - i,
    {
        let pid = history[i].pid;
        let channel = history[i].channel.as_str();
        let ghost t0 = tabs@;
        tabs.push_bounded("전체", pid, limit);
        let ghost t1 = tabs@;
        tabs.push_bounded(channel, pid, limit);
        let ghost t2 = tabs@;
        let custom = filters_contain(filters, channel);
        if custom {
            tabs.push_bounded("커스텀", pid, limit);
        }
        proof {
            let m = ms[i as int];
            assert(m.pid == pid && m.channel == channel@);
            assert forall|name: Seq<char>|
                #[trigger] tab_of(tabs@, name) == history_tab(ms, (i + 1) as nat, limit as nat, fv, name) by {
                assert(tab_of(t0, name) == history_tab(ms, i as nat, limit as nat, fv, name));
                if name != all_tab() {
                    assert(tab_of(t1, name) == tab_of(t0, name));
                }
                if name != channel@ {
                    assert(tab_of(t2, name) == tab_of(t1, name));
                }
                if !(custom && name == custom_tab()) && custom {
                    assert(tab_of(tabs@, name) == tab_of(t2, name));
                }
            }
        }
        i += 1;
    }
    let ghost tv = tabs@;
    let mut kept: Vec<ChatMessage> = Vec::new();
    let mut k: usize = 0;
    while k < history.len()
        invariant
            k <= history@.len(),
            ms == history@.map_values(|m: ChatMessage| m@),
            tv == tabs@,
            kept@.map_values(|m: ChatMessage| m@) == kept_history(ms, tv, k as nat),
        decreases history@.len() - k,
    {
        if tabs.lists(history[k].pid) {
            let mut m = history[k].copy();
            let (text, _) = clean_chat_text(history[k].message.as_str());
            m.message = text;
            let ghost before = kept@.map_values(|m: ChatMessage| m@);
            let ghost mv = m@;
            assert(mv == cleaned_message(ms[k as int]));
            kept.push(m);
            assert(kept@.map_values(|m: ChatMessage| m@) =~= before.push(mv));
        }
        k += 1;
    }
    (kept, tabs)
}

} // verus!
