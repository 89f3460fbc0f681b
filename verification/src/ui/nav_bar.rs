//! Tab switching in the navigation bar.

use crate::text::same_text;
use vstd::prelude::*;

verus! {

/// The tabs that the global shortcut cycles through, in order.
pub open spec fn tab_cycle() -> Seq<Seq<char>> {
    seq!["커스텀"@, "월드"@, "길드"@, "파티"@, "로컬"@]
}

/// The tab after `current` in the cycle (the custom tab when `current` is
/// not in it).
pub open spec fn next_tab_of(current: Seq<char>) -> Seq<char> {
    if current == "커스텀"@ {
        "월드"@
    } else if current == "월드"@ {
        "길드"@
    } else if current == "길드"@ {
        "파티"@
    } else if current == "파티"@ {
        "로컬"@
    } else {
        "커스텀"@
    }
}

/// The tab the global shortcut switches to from `current`.
pub fn next_tab(current: &str) -> (r: &'static str)
    ensures
        r@ == next_tab_of(current@),
{
    if same_text(current, "커스텀") {
        "월드"
    } else if same_text(current, "월드") {
        "길드"
    } else if same_text(current, "길드") {
        "파티"
    } else if same_text(current, "파티") {
        "로컬"
    } else {
        "커스텀"
    }
}

/// The channels whose unread badges a switch to `tab` clears: the custom
/// channels for the custom tab, the tab's own channel for a channel tab,
/// none otherwise.
pub open spec fn cleared_badges_of(tab: Seq<char>, filters: Seq<Seq<char>>) -> Seq<Seq<char>> {
    if tab == "커스텀"@ {
        filters
    } else if tab == "월드"@ {
        seq!["WORLD"@]
    } else if tab == "길드"@ {
        seq!["GUILD"@]
    } else if tab == "파티"@ {
        seq!["PARTY"@]
    } else if tab == "로컬"@ {
        seq!["LOCAL"@]
    } else {
        Seq::empty()
    }
}

/// Switching to a tab clears the badges of exactly the channels it lists:
/// 월드 WORLD, 길드 GUILD, 파티 PARTY, 로컬 LOCAL, the custom tab every custom
/// channel, the all and system tabs none.
pub proof fn law_switch_clears_own_badges(filters: Seq<Seq<char>>)
    ensures
        cleared_badges_of("월드"@, filters) == seq!["WORLD"@],
        cleared_badges_of("길드"@, filters) == seq!["GUILD"@],
        cleared_badges_of("파티"@, filters) == seq!["PARTY"@],
        cleared_badges_of("로컬"@, filters) == seq!["LOCAL"@],
        cleared_badges_of("커스텀"@, filters) == filters,
        cleared_badges_of("전체"@, filters).len() == 0,
        cleared_badges_of("시스템"@, filters).len() == 0,
{
    reveal_strlit("커스텀");
    reveal_strlit("월드");
    reveal_strlit("길드");
    reveal_strlit("파티");
    reveal_strlit("로컬");
    reveal_strlit("전체");
    reveal_strlit("시스템");
    assert("커스텀"@.len() == 3 && "월드"@.len() == 2);
    assert("월드"@[0] != "길드"@[0] && "월드"@[0] != "파티"@[0] && "월드"@[0] != "로컬"@[0]);
    assert("길드"@[0] != "파티"@[0] && "길드"@[0] != "로컬"@[0] && "파티"@[0] != "로컬"@[0]);
    assert("전체"@[0] != "월드"@[0] && "전체"@[0] != "길드"@[0] && "전체"@[0] != "파티"@[0] && "전체"@[0] != "로컬"@[0]);
    assert("시스템"@[0] != "커스텀"@[0] && "시스템"@.len() == 3);
    assert("시스템"@[0] != "월드"@[0] && "시스템"@[0] != "길드"@[0] && "시스템"@[0] != "파티"@[0] && "시스템"@[0] != "로컬"@[0]);
    assert("전체"@[0] != "커스텀"@[0]);
}

/// The channels whose unread badges a switch to `tab` clears.
pub fn cleared_badges(tab: &str, filters: &Vec<String>) -> (r: Vec<String>)
    ensures
        r@.map_values(|c: String| c@) == cleared_badges_of(tab@, filters@.map_values(|f: String| f@)),
{
    let mut out: Vec<String> = Vec::new();
    if same_text(tab, "커스텀") {
        let mut i: usize = 0;
        while i < filters.len()
            invariant
                i <= filters@.len(),
                out@.map_values(|c: String| c@) == filters@.map_values(|f: String| f@).take(i as int),
            decreases filters@.len() - i,
        {
            let ghost before = out@.map_values(|c: String| c@);
            let f = filters[i].clone();
            let ghost fv = f@;
            assert(fv == filters@[i as int]@);
            out.push(f);
            assert(out@.map_values(|c: String| c@) =~= before.push(fv));
            assert(filters@.map_values(|f: String| f@).take(i + 1) =~= filters@.map_values(|f: String| f@).take(
                i as int,
            ).push(fv));
            i += 1;
        }
        assert(filters@.map_values(|f: String| f@).take(filters@.len() as int) =~= filters@.map_values(
            |f: String| f@,
        ));
    } else {
        let c = if same_text(tab, "월드") {
            Some("WORLD")
        } else if same_text(tab, "길드") {
            Some("GUILD")
        } else if same_text(tab, "파티") {
            Some("PARTY")
        } else if same_text(tab, "로컬") {
            Some("LOCAL")
        } else {
            None
        };
        if let Some(c) = c {
            out.push(String::from_str(c));
        }
        assert(out@.map_values(|c: String| c@) =~= cleared_badges_of(tab@, filters@.map_values(|f: String| f@)));
    }
    out
}

/// The shortcut walks the cycle of tabs in order: from each tab of the
/// cycle it goes to the next one, and from the last back to the first, so
/// that five presses bring any tab of the cycle back to itself.
pub proof fn law_shortcut_cycles_tabs(i: int)
    requires
        0 <= i < 5,
    ensures
        next_tab_of(tab_cycle()[i]) == tab_cycle()[(i + 1) % 5],
        next_tab_of(next_tab_of(next_tab_of(next_tab_of(next_tab_of(tab_cycle()[i]))))) == tab_cycle()[i],
{
    reveal_strlit("커스텀");
    reveal_strlit("월드");
    reveal_strlit("길드");
    reveal_strlit("파티");
    reveal_strlit("로컬");
    assert("커스텀"@.len() == 3 && "월드"@.len() == 2);
    assert("월드"@[0] != "길드"@[0] && "월드"@[0] != "파티"@[0] && "월드"@[0] != "로컬"@[0]);
    assert("길드"@[0] != "파티"@[0] && "길드"@[0] != "로컬"@[0] && "파티"@[0] != "로컬"@[0]);
}

} // verus!
