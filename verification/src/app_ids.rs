//! Memory of the launcher ids of processes.
//!
//! The environment of a process never changes while its image runs, so one
//! reading per image is enough. A new image, or the death of the process,
//! drops the memory; a reading that was under way then is discarded.
use crate::json::opt_text;
use crate::matching::Reading;
use crate::router::{bump, bumped, is_live};
use vstd::prelude::*;

verus! {

/// What is known of one process.
pub struct AppIdMemo {
    pub pid: u64,
    /// Counts the images that were seen.
    pub generation: u64,
    /// The id, where it was read.
    pub value: Reading<Option<String>>,
}

/// Model of an [`AppIdMemo`].
pub struct MemoView {
    pub pid: u64,
    pub generation: u64,
    pub value: Option<Option<Seq<char>>>,
}

/// Model of a reading.
pub open spec fn reading_view(r: Reading<Option<String>>) -> Option<Option<Seq<char>>> {
    match r {
        Reading::Unread => None,
        Reading::Read(id) => Some(opt_text(id)),
    }
}

impl View for AppIdMemo {
    type V = MemoView;

    open spec fn view(&self) -> MemoView {
        MemoView {
            pid: self.pid,
            generation: self.generation,
            value: reading_view(self.value),
        }
    }
}

/// Memory of launcher ids.
pub struct AppIdCache {
    memos: Vec<AppIdMemo>,
}

/// Memos by their views.
pub open spec fn memos_view(v: Seq<AppIdMemo>) -> Seq<MemoView> {
    v.map_values(|m: AppIdMemo| m@)
}

/// The memo of `pid`: its generation and value; a process that was never
/// seen is in its first generation and unread.
pub open spec fn memo_of(s: Seq<MemoView>, pid: u64) -> (u64, Option<Option<Seq<char>>>)
    decreases s.len(),
{
    if s.len() == 0 {
        (0, None)
    } else if s.last().pid == pid {
        (s.last().generation, s.last().value)
    } else {
        memo_of(s.drop_last(), pid)
    }
}

/// `s` without the memos of `pid`.
pub open spec fn forgotten(s: Seq<MemoView>, pid: u64) -> Seq<MemoView>
    decreases s.len(),
{
    if s.len() == 0 {
        s
    } else if s.last().pid == pid {
        forgotten(s.drop_last(), pid)
    } else {
        forgotten(s.drop_last(), pid).push(s.last())
    }
}

/// `s` with a memo of `pid`.
pub open spec fn memorised(
    s: Seq<MemoView>,
    pid: u64,
    generation: u64,
    value: Option<Option<Seq<char>>>,
) -> Seq<MemoView> {
    forgotten(s, pid).push(MemoView { pid, generation, value })
}

/// `s` without the memos of processes that are not in `live`.
pub open spec fn swept(s: Seq<MemoView>, live: Seq<u64>) -> Seq<MemoView>
    decreases s.len(),
{
    if s.len() == 0 {
        s
    } else if live.contains(s.last().pid) {
        swept(s.drop_last(), live).push(s.last())
    } else {
        swept(s.drop_last(), live)
    }
}

impl View for AppIdCache {
    type V = Seq<MemoView>;

    closed spec fn view(&self) -> Seq<MemoView> {
        memos_view(self.memos@)
    }
}

/// Copy of a reading.
fn copy_reading(r: &Reading<Option<String>>) -> (c: Reading<Option<String>>)
    ensures
        reading_view(c) == reading_view(*r),
{
    match r {
        Reading::Unread => Reading::Unread,
        Reading::Read(Some(id)) => Reading::Read(Some(id.clone())),
        Reading::Read(None) => Reading::Read(None),
    }
}

impl AppIdCache {
    /// Nothing is known.
    pub fn new() -> (r: Self)
        ensures
            r@ == Seq::<MemoView>::empty(),
    {
        let r = AppIdCache { memos: Vec::new() };
        assert(r@ =~= Seq::<MemoView>::empty());
        r
    }

    /// What is known of `pid`: the generation for which it may be read, and
    /// the reading.
    pub fn cached_app_id(&self, pid: u64) -> (r: (u64, Reading<Option<String>>))
        ensures
            (r.0, reading_view(r.1)) == memo_of(self@, pid),
    {
        let ghost s = self@;
        let mut i: usize = self.memos.len();
        assert(s.take(i as int) == s);
        while i > 0
            invariant
                s == self@,
                i <= self.memos@.len(),
                memo_of(s.take(i as int), pid) == memo_of(s, pid),
            decreases i,
        {
            assert(s.take(i as int).drop_last() == s.take(i - 1));
            assert(s.take(i as int).last() == self.memos@[i - 1]@);
            if self.memos[i - 1].pid == pid {
                return (self.memos[i - 1].generation, copy_reading(&self.memos[i - 1].value));
            }
            i = i - 1;
        }
        (0, Reading::Unread)
    }

    /// Replace the memo of `pid`.
    fn put(&mut self, pid: u64, generation: u64, value: Reading<Option<String>>)
        ensures
            final(self)@ == memorised(old(self)@, pid, generation, reading_view(value)),
    {
        let ghost all = self@;
        let mut kept: Vec<AppIdMemo> = Vec::new();
        let mut i: usize = 0;
        assert(all.take(0) == Seq::<MemoView>::empty());
        assert(memos_view(kept@) == Seq::<MemoView>::empty());
        while i < self.memos.len()
            invariant
                all == self@,
                i <= self.memos@.len(),
                memos_view(kept@) == forgotten(all.take(i as int), pid),
            decreases self.memos@.len() - i,
        {
            assert(all.take(i + 1).drop_last() == all.take(i as int));
            assert(all.take(i + 1).last() == self.memos@[i as int]@);
            if self.memos[i].pid != pid {
                let ghost before = memos_view(kept@);
                let memo = AppIdMemo {
                    pid: self.memos[i].pid,
                    generation: self.memos[i].generation,
                    value: copy_reading(&self.memos[i].value),
                };
                let ghost shown = memo@;
                kept.push(memo);
                assert(memos_view(kept@) == before.push(shown));
            }
            i = i + 1;
        }
        assert(all.take(all.len() as int) == all);
        let ghost before = memos_view(kept@);
        let memo = AppIdMemo { pid, generation, value };
        let ghost shown = memo@;
        kept.push(memo);
        assert(memos_view(kept@) == before.push(shown));
        self.memos = kept;
    }

    /// A reading of `pid` for a generation is done. It counts only if the
    /// process is still in that generation. Whether it counts.
    pub fn finish_read(&mut self, pid: u64, generation: u64, id: Option<String>) -> (r: bool)
        ensures
            r == (memo_of(old(self)@, pid).0 == generation),
            final(self)@ == if r {
                memorised(old(self)@, pid, generation, Some(opt_text(id)))
            } else {
                old(self)@
            },
    {
        let (current, _) = self.cached_app_id(pid);
        if current != generation {
            return false;
        }
        self.put(pid, generation, Reading::Read(id));
        true
    }

    /// The process runs a new image: forget its id and discard readings that
    /// are under way. The generation wraps.
    pub fn drop_appid(&mut self, pid: u64)
        ensures
            final(self)@ == memorised(
                old(self)@,
                pid,
                bumped(memo_of(old(self)@, pid).0),
                None,
            ),
    {
        let (current, _) = self.cached_app_id(pid);
        self.put(pid, bump(current), Reading::Unread);
    }

    /// Forget processes that are not in `live`.
    pub fn sweep_dead_appids(&mut self, live: &Vec<u64>)
        ensures
            final(self)@ == swept(old(self)@, live@),
    {
        let ghost all = self@;
        let mut kept: Vec<AppIdMemo> = Vec::new();
        let mut i: usize = 0;
        assert(all.take(0) == Seq::<MemoView>::empty());
        assert(memos_view(kept@) == Seq::<MemoView>::empty());
        while i < self.memos.len()
            invariant
                all == self@,
                i <= self.memos@.len(),
                memos_view(kept@) == swept(all.take(i as int), live@),
            decreases self.memos@.len() - i,
        {
            assert(all.take(i + 1).drop_last() == all.take(i as int));
            assert(all.take(i + 1).last() == self.memos@[i as int]@);
            if is_live(live, self.memos[i].pid) {
                let ghost before = memos_view(kept@);
                let memo = AppIdMemo {
                    pid: self.memos[i].pid,
                    generation: self.memos[i].generation,
                    value: copy_reading(&self.memos[i].value),
                };
                let ghost shown = memo@;
                kept.push(memo);
                assert(memos_view(kept@) == before.push(shown));
            }
            i = i + 1;
        }
        assert(all.take(all.len() as int) == all);
        self.memos = kept;
    }
}

/// A reading that was begun before a new image started is never remembered,
/// unless the generation went all the way round.
pub proof fn law_stale_reading_is_discarded(s: Seq<MemoView>, pid: u64, generation: u64)
    requires
        memo_of(s, pid).0 == generation,
    ensures
        memo_of(memorised(s, pid, bumped(generation), None), pid).0 != generation,
        memo_of(memorised(s, pid, bumped(generation), None), pid).1 is None,
{
}

/// A sweep forgets the dead and no one else.
pub proof fn law_sweep(s: Seq<MemoView>, live: Seq<u64>, pid: u64)
    ensures
        live.contains(pid) ==> memo_of(swept(s, live), pid) == memo_of(s, pid),
        !live.contains(pid) ==> memo_of(swept(s, live), pid) == (0u64, None::<Option<Seq<char>>>),
    decreases s.len(),
{
    if s.len() > 0 {
        law_sweep(s.drop_last(), live, pid);
        if live.contains(s.last().pid) {
            assert(swept(s, live).drop_last() == swept(s.drop_last(), live));
        }
    }
}

/// What is remembered of one process leaves the others alone.
pub proof fn law_memos_are_independent(
    s: Seq<MemoView>,
    pid: u64,
    generation: u64,
    value: Option<Option<Seq<char>>>,
    other: u64,
)
    ensures
        memo_of(memorised(s, pid, generation, value), pid) == (generation, value),
        other != pid ==> memo_of(memorised(s, pid, generation, value), other) == memo_of(s, other),
{
    let kept = forgotten(s, pid);
    assert(memorised(s, pid, generation, value).drop_last() == kept);
    lemma_forgotten(s, pid, other);
}

/// Forgetting one process leaves the others alone.
proof fn lemma_forgotten(s: Seq<MemoView>, pid: u64, other: u64)
    ensures
        other != pid ==> memo_of(forgotten(s, pid), other) == memo_of(s, other),
    decreases s.len(),
{
    if s.len() > 0 {
        lemma_forgotten(s.drop_last(), pid, other);
        if s.last().pid != pid {
            assert(forgotten(s, pid).drop_last() == forgotten(s.drop_last(), pid));
        }
    }
}

} // verus!
