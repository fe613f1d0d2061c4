//! Replay cache: the last payload of each publisher, sent again to late
//! joiners and on refresh. Bounded: the oldest sequence leaves first.
use crate::json::{json_u64, json_u64_at};
use crate::payload::{CachedActivity, CachedView};
use crate::table::Table;
use crate::text::{parse_u64, parsed};
use std::sync::Arc;
use vstd::prelude::*;

verus! {

/// How many activities the replay cache holds at most.
pub const MAX_CACHED_ACTIVITIES: usize = 50;

/// Payload and sequence number per publisher, oldest update first.
pub type ReplayCache = Table<(Arc<CachedActivity>, u64)>;

/// Model of a replay cache.
pub type CacheView = Seq<(Seq<char>, (CachedView, u64))>;

/// Index of the entry with the lowest sequence number, the first of equals.
pub open spec fn oldest(s: CacheView) -> int
    decreases s.len(),
{
    if s.len() <= 1 {
        0
    } else {
        let o = oldest(s.drop_last());
        if s.last().1.1 < s[o].1.1 {
            s.len() - 1
        } else {
            o
        }
    }
}

/// What is left of `s` when the oldest entries leave until the bound holds.
pub open spec fn pruned(s: CacheView) -> CacheView
    decreases s.len(),
{
    if s.len() <= MAX_CACHED_ACTIVITIES {
        s
    } else if 0 <= oldest(s) < s.len() {
        pruned(s.remove(oldest(s)))
    } else {
        s
    }
}

/// The oldest entry is an entry, and none has a lower sequence number.
pub proof fn lemma_oldest(s: CacheView)
    requires
        s.len() > 0,
    ensures
        0 <= oldest(s) < s.len(),
        forall|i: int| 0 <= i < s.len() ==> s[oldest(s)].1.1 <= (#[trigger] s[i]).1.1,
    decreases s.len(),
{
    if s.len() > 1 {
        lemma_oldest(s.drop_last());
        assert forall|i: int| 0 <= i < s.len() implies s[oldest(s)].1.1 <= (#[trigger] s[i]).1.1 by {
            if i < s.len() - 1 {
                assert(s.drop_last()[i] == s[i]);
            }
        }
    }
}

/// Sequence numbers never fall along the cache.
pub open spec fn chronological(s: CacheView) -> bool {
    forall|i: int, j: int| 0 <= i < j < s.len() ==> (#[trigger] s[i]).1.1 <= (#[trigger] s[j]).1.1
}

proof fn lemma_oldest_first(s: CacheView)
    requires
        s.len() > 0,
        chronological(s),
    ensures
        oldest(s) == 0,
    decreases s.len(),
{
    if s.len() > 1 {
        let t = s.drop_last();
        assert(chronological(t)) by {
            assert forall|i: int, j: int| 0 <= i < j < t.len() implies (#[trigger] t[i]).1.1 <= (
            #[trigger] t[j]).1.1 by {
                assert(t[i] == s[i] && t[j] == s[j]);
            }
        }
        lemma_oldest_first(t);
        assert(s[0].1.1 <= s[s.len() - 1].1.1);
    }
}

/// Pruning bounds the cache and touches nothing within the bound; of a cache
/// in publishing order it keeps exactly the latest entries.
pub proof fn law_pruned(s: CacheView)
    ensures
        pruned(s).len() <= MAX_CACHED_ACTIVITIES,
        s.len() <= MAX_CACHED_ACTIVITIES ==> pruned(s) == s,
        s.len() > MAX_CACHED_ACTIVITIES ==> pruned(s).len() == MAX_CACHED_ACTIVITIES,
        chronological(s) && s.len() > MAX_CACHED_ACTIVITIES ==> pruned(s) == s.skip(
            s.len() - MAX_CACHED_ACTIVITIES,
        ),
    decreases s.len(),
{
    if s.len() > MAX_CACHED_ACTIVITIES {
        lemma_oldest(s);
        let r = s.remove(oldest(s));
        law_pruned(r);
        if chronological(s) {
            lemma_oldest_first(s);
            assert(r =~= s.skip(1));
            assert(chronological(r)) by {
                assert forall|i: int, j: int| 0 <= i < j < r.len() implies (#[trigger] r[i]).1.1
                    <= (#[trigger] r[j]).1.1 by {
                    assert(r[i] == s[i + 1] && r[j] == s[j + 1]);
                }
            }
            if r.len() > MAX_CACHED_ACTIVITIES {
                assert(r.skip(r.len() - MAX_CACHED_ACTIVITIES) =~= s.skip(
                    s.len() - MAX_CACHED_ACTIVITIES,
                ));
            }
        }
    }
}

/// An entry that pruning evicts is never younger than one that stays.
pub proof fn law_pruned_evicts_oldest(s: CacheView, i: int, j: int)
    requires
        0 <= i < s.len(),
        0 <= j < s.len(),
        crate::table::distinct(s),
        !pruned(s).contains(s[i]),
        pruned(s).contains(s[j]),
    ensures
        s[i].1.1 <= s[j].1.1,
    decreases s.len(),
{
    if s.len() <= MAX_CACHED_ACTIVITIES {
        assert(pruned(s)[i] == s[i]);
        assert(false);
    } else {
        lemma_oldest(s);
        let o = oldest(s);
        if i != o {
            let r = s.remove(o);
            assert(crate::table::distinct(r)) by {
                assert forall|a: int, b: int| 0 <= a < b < r.len() implies (#[trigger] r[a]).0 != (
                #[trigger] r[b]).0 by {
                    let x = if a < o { a } else { a + 1 };
                    let y = if b < o { b } else { b + 1 };
                    assert(r[a] == s[x] && r[b] == s[y]);
                }
            }
            let i2 = if i < o { i } else { i - 1 };
            assert(r[i2] == s[i]);
            if j == o {
                // The evicted entry would have to come back.
                lemma_pruned_subset(r, s[o]);
                let k = choose|k: int| 0 <= k < r.len() && r[k] == s[o];
                let k2 = if k < o { k } else { k + 1 };
                assert(s[k2] == s[o]);
                assert(false);
            }
            let j2 = if j < o { j } else { j - 1 };
            assert(r[j2] == s[j]);
            law_pruned_evicts_oldest(r, i2, j2);
        }
    }
}

proof fn lemma_pruned_subset(s: CacheView, e: (Seq<char>, (CachedView, u64)))
    requires
        pruned(s).contains(e),
    ensures
        s.contains(e),
    decreases s.len(),
{
    if s.len() > MAX_CACHED_ACTIVITIES {
        lemma_oldest(s);
        let o = oldest(s);
        lemma_pruned_subset(s.remove(o), e);
        let k = choose|k: int| 0 <= k < s.remove(o).len() && s.remove(o)[k] == e;
        let k2 = if k < o { k } else { k + 1 };
        assert(s[k2] == e);
    }
}

/// Evict the oldest entries while the cache exceeds its bound.
pub fn prune_cache(cache: &mut ReplayCache)
    ensures
        final(cache)@ == pruned(old(cache)@),
{
    while cache.entries.len() > MAX_CACHED_ACTIVITIES
        invariant
            pruned(cache@) == pruned(old(cache)@),
        decreases cache.entries@.len(),
    {
        let ghost s = cache@;
        let mut o: usize = 0;
        let mut i: usize = 1;
        assert(oldest(s.take(1)) == 0);
        while i < cache.entries.len()
            invariant
                s == cache@,
                1 <= i <= cache.entries@.len(),
                o < i,
                o == oldest(s.take(i as int)),
            decreases cache.entries@.len() - i,
        {
            assert(s.take(i + 1).drop_last() == s.take(i as int));
            assert(s.take(i + 1).last() == s[i as int]);
            if cache.entries[i].1.1 < cache.entries[o].1.1 {
                o = i;
            }
            i = i + 1;
        }
        assert(s.take(s.len() as int) == s);
        let _ = cache.entries.remove(o);
        assert(cache@ =~= s.remove(o as int));
    }
}

/// Process that owns a replay entry: a numeric publisher is the pid itself,
/// otherwise the pid rides in the payload. A pid of zero identifies nobody.
pub open spec fn entry_pid(socket_id: Seq<char>, body_pid: Option<u64>) -> Option<u64> {
    match parsed(socket_id, u64::MAX as nat) {
        Some(pid) => if pid != 0 {
            Some(pid as u64)
        } else {
            None
        },
        None => match body_pid {
            Some(pid) if pid != 0 => Some(pid),
            _ => None,
        },
    }
}

/// Resolve the owning process from the publisher and the pid of the payload.
pub fn resolve_pid(socket_id: &str, body_pid: Option<u64>) -> (r: Option<u64>)
    ensures
        r == entry_pid(socket_id@, body_pid),
{
    match parse_u64(socket_id) {
        Some(pid) => if pid != 0 {
            Some(pid)
        } else {
            None
        },
        None => match body_pid {
            Some(pid) => if pid != 0 {
                Some(pid)
            } else {
                None
            },
            None => None,
        },
    }
}

/// Resolve the owning process of a replay entry. Nothing when neither the
/// publisher nor the payload names one: such an entry can never be proven
/// dead.
pub fn cache_entry_pid(socket_id: &str, payload: &CachedActivity) -> (r: Option<u64>)
    ensures
        r == entry_pid(socket_id@, json_u64(payload.json@, "/pid"@)),
{
    resolve_pid(socket_id, json_u64_at(payload.json.as_str(), "/pid"))
}

} // verus!
