//! The daily chat logs: what the history holds after a restart.

use crate::protocol::types::{ChatMessage, ChatMessageView};
use vstd::prelude::*;

verus! {

/// A chat message to append to the log of the day.
#[derive(Debug)]
pub struct DataFactoryJob {
    pub chat: ChatMessage,
}

/// The messages of all days, oldest day first.
pub open spec fn all_messages(days: Seq<Seq<ChatMessageView>>) -> Seq<ChatMessageView>
    decreases days.len(),
{
    if days.len() == 0 {
        Seq::empty()
    } else {
        all_messages(days.drop_last()) + days.last()
    }
}

/// The abstract value of the parsed daily logs.
pub open spec fn days_view(days: Seq<Vec<ChatMessage>>) -> Seq<Seq<ChatMessageView>> {
    days.map_values(|d: Vec<ChatMessage>| d@.map_values(|m: ChatMessage| m@))
}

/// How many of `total` messages are restored for `limit`: reading from the
/// newest stops once `limit` are taken, and a message is read before the
/// check, so a zero limit still takes one.
pub open spec fn restored_count(total: nat, limit: nat) -> nat {
    if total == 0 {
        0
    } else if limit == 0 {
        1
    } else if total < limit {
        total
    } else {
        limit
    }
}

/// The largest pid of `ms` (zero for none).
pub open spec fn max_pid(ms: Seq<ChatMessageView>) -> u64
    decreases ms.len(),
{
    if ms.len() == 0 {
        0
    } else {
        let m = max_pid(ms.drop_last());
        if ms.last().pid > m {
            ms.last().pid
        } else {
            m
        }
    }
}

/// Restores the chat history from the parsed daily logs (oldest day first,
/// each in file order): the newest `limit` messages in chronological order,
/// with the largest pid among them (so new messages get fresh pids).
pub fn recent_history(days: &Vec<Vec<ChatMessage>>, limit: usize) -> (r: (Vec<ChatMessage>, u64))
    ensures
        ({
            let all = all_messages(days_view(days@));
            let kept = all.skip(all.len() - restored_count(all.len(), limit as nat));
            &&& r.0@.map_values(|m: ChatMessage| m@) == kept
            &&& r.1 == max_pid(kept)
        }),
{
    let ghost dv = days_view(days@);
    let mut all: Vec<ChatMessage> = Vec::new();
    let mut d: usize = 0;
    while d < days.len()
        invariant
            dv == days_view(days@),
            d <= days@.len(),
            all@.map_values(|m: ChatMessage| m@) == all_messages(dv.take(d as int)),
        decreases days@.len() - d,
    {
        let ghost before = all@.map_values(|m: ChatMessage| m@);
        let day = &days[d];
        let mut k: usize = 0;
        while k < day.len()
            invariant
                k <= day@.len(),
                all@.map_values(|m: ChatMessage| m@) == before + day@.map_values(|m: ChatMessage| m@).take(k as int),
            decreases day@.len() - k,
        {
            let ghost prev = all@.map_values(|m: ChatMessage| m@);
            let c = day[k].copy();
            let ghost cv = c@;
            all.push(c);
            proof {
                assert(all@.map_values(|m: ChatMessage| m@) =~= prev.push(cv));
                assert(day@.map_values(|m: ChatMessage| m@).take(k + 1) =~= day@.map_values(|m: ChatMessage| m@).take(
                    k as int,
                ).push(cv));
                assert(all@.map_values(|m: ChatMessage| m@) =~= before + day@.map_values(|m: ChatMessage| m@).take(k + 1));
            }
            k += 1;
        }
        proof {
            assert(dv.take(d + 1).drop_last() =~= dv.take(d as int));
            assert(day@.map_values(|m: ChatMessage| m@).take(day@.len() as int) =~= day@.map_values(|m: ChatMessage| m@));
            assert(dv.take(d + 1).last() == dv[d as int]);
        }
        d += 1;
    }
    proof {
        assert(dv.take(days@.len() as int) =~= dv);
    }
    let ghost av = all@.map_values(|m: ChatMessage| m@);
    let total = all.len();
    let count = if total == 0 {
        0
    } else if limit == 0 {
        1
    } else if total < limit {
        total
    } else {
        limit
    };
    let start = total - count;
    let mut out: Vec<ChatMessage> = Vec::new();
    let mut best: u64 = 0;
    let mut i = start;
    assert(av.skip(start as int).take(0) =~= Seq::<ChatMessageView>::empty());
    while i < total
        invariant
            av == all@.map_values(|m: ChatMessage| m@),
            total == all@.len(),
            start <= i <= total,
            out@.map_values(|m: ChatMessage| m@) == av.skip(start as int).take(i - start),
            best == max_pid(av.skip(start as int).take(i - start)),
        decreases total - i,
    {
        let m = all[i].copy();
        proof {
            let t = av.skip(start as int).take(i + 1 - start);
            assert(t.drop_last() =~= av.skip(start as int).take(i - start));
            assert(t.last() == av[i as int]);
        }
        if m.pid > best {
            best = m.pid;
        }
        let ghost before = out@.map_values(|x: ChatMessage| x@);
        let ghost mv = m@;
        out.push(m);
        proof {
            assert(out@.map_values(|x: ChatMessage| x@) =~= before.push(mv));
            assert(av.skip(start as int).take(i + 1 - start) =~= av.skip(start as int).take(i - start).push(av[i as int]));
        }
        i += 1;
    }
    proof {
        assert(av.skip(start as int).take(total - start) =~= av.skip(start as int));
    }
    (out, best)
}

} // verus!
