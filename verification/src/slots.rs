//! Detection slots: `(application id, pid)` pairs, their order and their
//! differences.
use crate::text::{
    lemma_lex_irreflexive, lemma_lex_total, lemma_lex_transitive, less, lex_less, same,
};
use vstd::prelude::*;

verus! {

/// Model of a slot.
pub type SlotView = (Seq<char>, u64);

/// The slots of `v`, ids as character sequences.
pub open spec fn slots_view(v: Seq<(String, u64)>) -> Seq<SlotView> {
    v.map_values(|e: (String, u64)| (e.0@, e.1))
}

/// Strict order of slots: by pid and then id, or by id and then pid.
pub open spec fn slot_less(a: SlotView, b: SlotView, by_pid: bool) -> bool {
    if by_pid {
        a.1 < b.1 || (a.1 == b.1 && lex_less(a.0, b.0))
    } else {
        lex_less(a.0, b.0) || (a.0 == b.0 && a.1 < b.1)
    }
}

/// Whether slot `a` sorts strictly before slot `b`.
fn slot_before(a: &(String, u64), b: &(String, u64), by_pid: bool) -> (r: bool)
    ensures
        r == slot_less((a.0@, a.1), (b.0@, b.1), by_pid),
{
    if by_pid {
        a.1 < b.1 || (a.1 == b.1 && less(a.0.as_str(), b.0.as_str()))
    } else {
        less(a.0.as_str(), b.0.as_str()) || (same(a.0.as_str(), b.0.as_str()) && a.1 < b.1)
    }
}

/// No slot stands behind a greater one.
pub open spec fn in_order(s: Seq<SlotView>, by_pid: bool) -> bool {
    forall|i: int, j: int|
        0 <= i < j < s.len() ==> !slot_less(#[trigger] s[j], #[trigger] s[i], by_pid)
}

/// `s` with `x` put behind the slots that are not greater.
pub open spec fn placed(s: Seq<SlotView>, x: SlotView, by_pid: bool) -> Seq<SlotView>
    decreases s.len(),
{
    if s.len() == 0 || !slot_less(x, s.last(), by_pid) {
        s.push(x)
    } else {
        placed(s.drop_last(), x, by_pid).push(s.last())
    }
}

/// The slots of `s` in order.
pub open spec fn ordered(s: Seq<SlotView>, by_pid: bool) -> Seq<SlotView>
    decreases s.len(),
{
    if s.len() == 0 {
        s
    } else {
        placed(ordered(s.drop_last(), by_pid), s.last(), by_pid)
    }
}

proof fn lemma_slot_order(a: SlotView, b: SlotView, c: SlotView, by_pid: bool)
    ensures
        !slot_less(a, a, by_pid),
        slot_less(a, b, by_pid) && slot_less(b, c, by_pid) ==> slot_less(a, c, by_pid),
        a == b || slot_less(a, b, by_pid) || slot_less(b, a, by_pid),
        slot_less(a, b, by_pid) ==> !slot_less(b, a, by_pid),
{
    lemma_lex_irreflexive(a.0);
    lemma_lex_irreflexive(b.0);
    lemma_lex_total(a.0, b.0);
    if lex_less(a.0, b.0) && lex_less(b.0, c.0) {
        lemma_lex_transitive(a.0, b.0, c.0);
    }
    if lex_less(a.0, b.0) && lex_less(b.0, a.0) {
        lemma_lex_transitive(a.0, b.0, a.0);
    }
}

proof fn lemma_placed(s: Seq<SlotView>, x: SlotView, by_pid: bool)
    requires
        in_order(s, by_pid),
    ensures
        in_order(placed(s, x, by_pid), by_pid),
        placed(s, x, by_pid).to_multiset() == s.to_multiset().insert(x),
        placed(s, x, by_pid).len() == s.len() + 1,
    decreases s.len(),
{
    broadcast use vstd::seq_lib::group_to_multiset_ensures;

    let p = placed(s, x, by_pid);
    if s.len() == 0 || !slot_less(x, s.last(), by_pid) {
        assert forall|i: int, j: int| 0 <= i < j < p.len() implies !slot_less(
            #[trigger] p[j],
            #[trigger] p[i],
            by_pid,
        ) by {
            if j == s.len() {
                // x is not below the last slot, and the last slot is not
                // below any earlier one.
                lemma_slot_order(x, s[i], s.last(), by_pid);
                lemma_slot_order(x, s.last(), s[i], by_pid);
                lemma_slot_order(s.last(), s[i], x, by_pid);
                lemma_slot_order(s[i], s.last(), x, by_pid);
                lemma_slot_order(s[i], x, s.last(), by_pid);
            }
        }
    } else {
        let t = s.drop_last();
        assert(in_order(t, by_pid)) by {
            assert forall|i: int, j: int| 0 <= i < j < t.len() implies !slot_less(
                #[trigger] t[j],
                #[trigger] t[i],
                by_pid,
            ) by {
                assert(t[i] == s[i] && t[j] == s[j]);
            }
        }
        lemma_placed(t, x, by_pid);
        let q = placed(t, x, by_pid);
        lemma_slot_order(x, s.last(), x, by_pid);
        assert(s == t.push(s.last()));
        assert forall|i: int, j: int| 0 <= i < j < p.len() implies !slot_less(
            #[trigger] p[j],
            #[trigger] p[i],
            by_pid,
        ) by {
            if j < q.len() {
                assert(p[i] == q[i] && p[j] == q[j]);
            } else {
                assert(p[i] == q[i]);
                assert(q.to_multiset().contains(q[i])) by {
                    assert(q.contains(q[i]));
                }
                if q[i] != x {
                    assert(t.to_multiset().contains(q[i]));
                    let m = choose|m: int| 0 <= m < t.len() && t[m] == q[i];
                    assert(s[m] == q[i] && s[s.len() - 1] == p[j]);
                }
            }
        }
    }
}

/// Ordering slots keeps exactly the slots and puts them in order.
pub proof fn law_ordered(s: Seq<SlotView>, by_pid: bool)
    ensures
        in_order(ordered(s, by_pid), by_pid),
        ordered(s, by_pid).to_multiset() == s.to_multiset(),
        ordered(s, by_pid).len() == s.len(),
    decreases s.len(),
{
    broadcast use vstd::seq_lib::group_to_multiset_ensures;

    if s.len() > 0 {
        law_ordered(s.drop_last(), by_pid);
        lemma_placed(ordered(s.drop_last(), by_pid), s.last(), by_pid);
        assert(s == s.drop_last().push(s.last()));
    }
}

/// Put `x` into the ordered `out`.
fn place(out: &mut Vec<(String, u64)>, x: (String, u64), by_pid: bool)
    ensures
        slots_view(final(out)@) == placed(slots_view(old(out)@), (x.0@, x.1), by_pid),
{
    let ghost s = slots_view(out@);
    let ghost y = (x.0@, x.1);
    let mut p: usize = out.len();
    assert(s.take(s.len() as int) == s);
    assert(s.skip(s.len() as int) == Seq::<SlotView>::empty());
    assert(placed(s, y, by_pid) == placed(s, y, by_pid) + s.skip(s.len() as int));
    while p > 0 && slot_before(&x, &out[p - 1], by_pid)
        invariant
            p <= out@.len(),
            s == slots_view(out@),
            y == (x.0@, x.1),
            placed(s, y, by_pid) == placed(s.take(p as int), y, by_pid) + s.skip(p as int),
        decreases p,
    {
        assert(s.take(p as int).last() == s[p - 1]);
        assert(s.take(p as int).drop_last() == s.take(p - 1));
        assert(placed(s.take(p - 1), y, by_pid).push(s[p - 1]) + s.skip(p as int) == placed(
            s.take(p - 1),
            y,
            by_pid,
        ) + s.skip(p - 1));
        p = p - 1;
    }
    proof {
        if p > 0 {
            assert(s.take(p as int).last() == s[p - 1]);
        }
        assert(placed(s.take(p as int), y, by_pid) == s.take(p as int).push(y));
    }
    out.insert(p, x);
    assert(slots_view(out@) =~= s.take(p as int).push(y) + s.skip(p as int));
}

/// The slots of `v` in order.
pub fn sort_slots(v: &Vec<(String, u64)>, by_pid: bool) -> (r: Vec<(String, u64)>)
    ensures
        slots_view(r@) == ordered(slots_view(v@), by_pid),
{
    let ghost all = slots_view(v@);
    let mut out: Vec<(String, u64)> = Vec::new();
    assert(slots_view(out@) == Seq::<SlotView>::empty());
    assert(all.take(0) == Seq::<SlotView>::empty());
    let mut i: usize = 0;
    while i < v.len()
        invariant
            i <= v@.len(),
            all == slots_view(v@),
            slots_view(out@) == ordered(all.take(i as int), by_pid),
        decreases v@.len() - i,
    {
        assert(all.take(i + 1).drop_last() == all.take(i as int));
        assert(all.take(i + 1).last() == all[i as int]);
        place(&mut out, (v[i].0.clone(), v[i].1), by_pid);
        i = i + 1;
    }
    assert(all.take(all.len() as int) == all);
    out
}

/// The slots of `previous` that `current` does not hold, in order.
pub open spec fn vanished(previous: Seq<SlotView>, current: Seq<SlotView>) -> Seq<SlotView>
    decreases previous.len(),
{
    if previous.len() == 0 {
        previous
    } else if current.contains(previous.last()) {
        vanished(previous.drop_last(), current)
    } else {
        vanished(previous.drop_last(), current).push(previous.last())
    }
}

/// Whether `slots` holds `(id, pid)`.
pub fn holds_slot(slots: &Vec<(String, u64)>, id: &str, pid: u64) -> (r: bool)
    ensures
        r == slots_view(slots@).contains((id@, pid)),
{
    let mut i: usize = 0;
    while i < slots.len()
        invariant
            i <= slots@.len(),
            forall|j: int| 0 <= j < i ==> #[trigger] slots_view(slots@)[j] != (id@, pid),
        decreases slots@.len() - i,
    {
        if slots[i].1 == pid && same(slots[i].0.as_str(), id) {
            assert(slots_view(slots@)[i as int] == (id@, pid));
            return true;
        }
        assert(slots_view(slots@)[i as int] != (id@, pid));
        i = i + 1;
    }
    false
}

/// Slots of the previous snapshot that are absent now. The pair counts, not
/// the id alone: a replaced pid reports the old pair.
pub fn removed_slots(previous: &Vec<(String, u64)>, current: &Vec<(String, u64)>) -> (r: Vec<
    (String, u64),
>)
    ensures
        slots_view(r@) == vanished(slots_view(previous@), slots_view(current@)),
{
    let mut out: Vec<(String, u64)> = Vec::new();
    let ghost prev = slots_view(previous@);
    assert(prev.take(0) == Seq::<SlotView>::empty());
    assert(slots_view(out@) == Seq::<SlotView>::empty());
    let mut i: usize = 0;
    while i < previous.len()
        invariant
            i <= previous@.len(),
            prev == slots_view(previous@),
            slots_view(out@) == vanished(prev.take(i as int), slots_view(current@)),
        decreases previous@.len() - i,
    {
        assert(prev.take(i + 1).drop_last() == prev.take(i as int));
        assert(prev.take(i + 1).last() == prev[i as int]);
        if !holds_slot(current, previous[i].0.as_str(), previous[i].1) {
            let ghost before = slots_view(out@);
            out.push((previous[i].0.clone(), previous[i].1));
            assert(slots_view(out@) == before.push(prev[i as int]));
        }
        i = i + 1;
    }
    assert(prev.take(prev.len() as int) == prev);
    out
}

/// A slot is reported vanished exactly when it was held before and is not
/// held now.
pub proof fn law_vanished(previous: Seq<SlotView>, current: Seq<SlotView>, x: SlotView)
    ensures
        vanished(previous, current).contains(x) <==> previous.contains(x) && !current.contains(x),
    decreases previous.len(),
{
    if previous.len() > 0 {
        let t = previous.drop_last();
        law_vanished(t, current, x);
        assert(previous == t.push(previous.last()));
        lemma_push_contains(t, previous.last(), x);
        lemma_push_contains(vanished(t, current), previous.last(), x);
    }
}

proof fn lemma_push_contains(s: Seq<SlotView>, y: SlotView, x: SlotView)
    ensures
        s.push(y).contains(x) <==> s.contains(x) || x == y,
{
    if s.contains(x) {
        let i = choose|i: int| 0 <= i < s.len() && s[i] == x;
        assert(s.push(y)[i] == x);
    }
    if x == y {
        assert(s.push(y)[s.len() as int] == x);
    }
}

} // verus!
