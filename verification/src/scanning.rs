//! Laws of the process scan: what is read of a process, which findings are
//! reported, and what is remembered between scans.
use crate::app_ids::{forgotten, memo_of, memorised, MemoView};
use crate::detectables::{os_applies, DetectablesBundle, Platform, ScannedEntry};
use crate::ipc::SOCKET_NAMES;
use crate::json::opt_text;
use crate::matching::{classify, shows_recording, Class, Context, Facts, Need, ScannedHit};
use crate::names::{breaks, forbidden, joined, normalized, words};
use crate::procfs::{
    app_id_key, cmdline_args, cmdline_file, cmdline_parts, describes, entry_app_id, environ_app_id,
    listed, text_end, zero_at, Exec, TableEntry, MAX_CMDLINE_BYTES, MAX_ENVIRON_BYTES,
};
use crate::publications::MAX_PUBLICATIONS;
use crate::replay::MAX_CACHED_ACTIVITIES;
use crate::scan_loop::{
    pids_of, sightings, snapshot, tick_events, unignored, EventView, MAX_SEEN_IDS,
};
use crate::server::{games, not_named, readings, recording};
use crate::slots::{law_ordered, ordered, slot_less, vanished, SlotView};
use crate::state::MAX_STATE_SLOTS;
use crate::text::{decimal, lex_less, lower, parsed, trimmed, white};
use crate::text_laws::{blank, law_decimal_is_unique, law_split_joined, law_trimmed, without_char};
use crate::time::{millis_of, stretched, MAX_BACKOFF_NANOS};
use std::sync::Arc;
use vstd::arithmetic::power2::{lemma2_to64, lemma_pow2_unfold, pow2};
use vstd::prelude::*;
use vstd::utf8::{
    encode_utf8, encode_utf8_decode_utf8, encode_utf8_valid_utf8, is_ascii_chars,
    is_ascii_chars_encode_utf8, valid_utf8,
};

verus! {

/// A command line is read as it was given: its arguments, each without a zero
/// character, with one between neighbours. The first is the path, and the
/// others are shown with spaces between them; there are none without one that
/// says something.
#[verifier::rlimit(40)]
pub proof fn law_command_line(argv: Seq<Seq<char>>)
    requires
        argv.len() > 0,
        forall|k: int| 0 <= k < argv.len() ==> without_char(#[trigger] argv[k], '\0'),
        encode_utf8(crate::text_laws::joined(argv, '\0')).len() <= MAX_CMDLINE_BYTES,
    ensures
        ({
            let line = encode_utf8(crate::text_laws::joined(argv, '\0'));
            &&& cmdline_parts(line) == argv
            &&& argv.len() == 1 ==> cmdline_args(line) is None
            &&& argv.len() == 2 ==> cmdline_args(line) == if argv[1].len() == 0 {
                None
            } else {
                Some(argv[1])
            }
            &&& argv.len() == 3 ==> cmdline_args(line) == Some(argv[1].push(' ') + argv[2])
        }),
{
    let text = crate::text_laws::joined(argv, '\0');
    let line = encode_utf8(text);
    encode_utf8_valid_utf8(text);
    encode_utf8_decode_utf8(text);
    law_split_joined(argv, '\0');
    assert(line.take(line.len() as int) =~= line);
    assert(text_end(line, line.len() as int) == line.len());
    let rest = argv.skip(1);
    if argv.len() == 3 {
        assert(rest.drop_last() =~= seq![argv[1]]);
        assert(joined(seq![argv[1]]) == argv[1]);
        assert(joined(rest) == joined(rest.drop_last()).push(' ') + rest.last());
    }
}

proof fn lemma_zero_at(entry: Seq<u8>, rest: Seq<u8>)
    requires
        forall|i: int| 0 <= i < entry.len() ==> #[trigger] entry[i] != 0,
    ensures
        zero_at(entry.push(0) + rest) == entry.len(),
        zero_at(entry) == entry.len(),
    decreases entry.len(),
{
    let all = entry.push(0) + rest;
    if entry.len() > 0 {
        let tail = entry.drop_first();
        assert(all.drop_first() =~= tail.push(0) + rest);
        assert(all[0] == entry[0]);
        assert forall|i: int| 0 <= i < tail.len() implies #[trigger] tail[i] != 0 by {
            assert(tail[i] == entry[i + 1]);
        }
        lemma_zero_at(tail, rest);
    } else {
        assert(all[0] == 0);
    }
}

/// An environment names the launcher id of its first entry that does, without
/// the white space around it; a blank id is none.
#[verifier::rlimit(40)]
pub proof fn law_environment(entry: Seq<u8>, rest: Seq<u8>, id: Seq<char>)
    requires
        forall|i: int| 0 <= i < entry.len() ==> #[trigger] entry[i] != 0,
    ensures
        environ_app_id(entry.push(0) + rest) == match entry_app_id(entry) {
            Some(found) => Some(found),
            None => environ_app_id(rest),
        },
        environ_app_id(entry) == entry_app_id(entry),
        entry_app_id(app_id_key() + encode_utf8(id)) == if blank(id) {
            None
        } else {
            Some(trimmed(id))
        },
        entry.len() < 11 || entry.take(11) != app_id_key() ==> entry_app_id(entry) is None,
{
    let all = entry.push(0) + rest;
    lemma_zero_at(entry, rest);
    assert(all.take(entry.len() as int) =~= entry);
    assert(all.skip(entry.len() as int + 1) =~= rest);
    assert(entry.take(entry.len() as int) =~= entry);
    let named = app_id_key() + encode_utf8(id);
    assert(named.take(11) =~= app_id_key());
    assert(named.skip(11) =~= encode_utf8(id));
    encode_utf8_valid_utf8(id);
    encode_utf8_decode_utf8(id);
    law_trimmed(id);
}

/// The process table lists exactly the entries that are named by a number and
/// have a command line.
pub proof fn law_listed(entries: Seq<TableEntry>, pid: u64, cmdline: Seq<u8>)
    ensures
        listed(entries).contains((pid, cmdline)) <==> cmdline.len() > 0 && exists|i: int|
            0 <= i < entries.len() && parsed((#[trigger] entries[i]).name@, u64::MAX as nat)
                == Some(pid as nat) && entries[i].cmdline@ == cmdline,
    decreases entries.len(),
{
    if entries.len() > 0 {
        let front = entries.drop_last();
        let last = entries.last();
        law_listed(front, pid, cmdline);
        let before = listed(front);
        let all = listed(entries);
        if all.contains((pid, cmdline)) {
            let k = choose|k: int| 0 <= k < all.len() && all[k] == (pid, cmdline);
            if k < before.len() {
                assert(before[k] == (pid, cmdline));
                let i = choose|i: int|
                    0 <= i < front.len() && parsed((#[trigger] front[i]).name@, u64::MAX as nat)
                        == Some(pid as nat) && front[i].cmdline@ == cmdline;
                assert(entries[i] == front[i]);
            } else {
                assert(entries[entries.len() - 1] == last);
            }
        }
        if cmdline.len() > 0 && exists|i: int|
            0 <= i < entries.len() && parsed((#[trigger] entries[i]).name@, u64::MAX as nat)
                == Some(pid as nat) && entries[i].cmdline@ == cmdline {
            let i = choose|i: int|
                0 <= i < entries.len() && parsed((#[trigger] entries[i]).name@, u64::MAX as nat)
                    == Some(pid as nat) && entries[i].cmdline@ == cmdline;
            if i < front.len() {
                assert(front[i] == entries[i]);
                let k = choose|k: int| 0 <= k < before.len() && before[k] == (pid, cmdline);
                assert(all[k] == (pid, cmdline));
            } else {
                assert(all[all.len() - 1] == (pid, cmdline));
            }
        }
    }
}

/// A scan yields exactly the processes that are hits, each with the entry that
/// it hits and its own number.
pub proof fn law_scan_yields_the_hits(
    bundle: DetectablesBundle,
    context: Context,
    processes: Seq<Exec>,
    facts: Seq<Facts>,
    n: int,
    hit: ScannedHit,
)
    ensures
        games(bundle, context, processes, facts, n).contains(hit) <==> exists|i: int|
            0 <= i < n && #[trigger] classify(bundle, context, processes[i], facts[i])
                == Class::Hit(hit.entry) && processes[i].pid == hit.pid && facts[i].now_ms
                == hit.start,
    decreases n,
{
    if n > 0 {
        law_scan_yields_the_hits(bundle, context, processes, facts, n - 1, hit);
        let before = games(bundle, context, processes, facts, n - 1);
        let all = games(bundle, context, processes, facts, n);
        if all.contains(hit) {
            let k = choose|k: int| 0 <= k < all.len() && all[k] == hit;
            if k < before.len() {
                assert(before[k] == hit);
            } else {
                assert(classify(bundle, context, processes[n - 1], facts[n - 1]) == Class::Hit(
                    hit.entry,
                ));
            }
        }
        if exists|i: int|
            0 <= i < n && #[trigger] classify(bundle, context, processes[i], facts[i])
                == Class::Hit(hit.entry) && processes[i].pid == hit.pid && facts[i].now_ms
                == hit.start {
            let i = choose|i: int|
                0 <= i < n && #[trigger] classify(bundle, context, processes[i], facts[i])
                    == Class::Hit(hit.entry) && processes[i].pid == hit.pid && facts[i].now_ms
                    == hit.start;
            if i == n - 1 {
                assert(all[all.len() - 1] == hit);
            } else {
                let k = choose|k: int| 0 <= k < before.len() && before[k] == hit;
                assert(all[k] == hit);
            }
        }
    }
}

/// A scan asks exactly for the readings that its processes need.
pub proof fn law_scan_asks_for_readings(
    bundle: DetectablesBundle,
    context: Context,
    processes: Seq<Exec>,
    facts: Seq<Facts>,
    n: int,
    i: usize,
    need: Need,
)
    requires
        n <= usize::MAX,
    ensures
        readings(bundle, context, processes, facts, n).contains((i, need)) <==> i < n && classify(
            bundle,
            context,
            processes[i as int],
            facts[i as int],
        ) == Class::Needs(need),
    decreases n,
{
    if n > 0 {
        law_scan_asks_for_readings(bundle, context, processes, facts, n - 1, i, need);
        let before = readings(bundle, context, processes, facts, n - 1);
        let all = readings(bundle, context, processes, facts, n);
        if all.contains((i, need)) {
            let k = choose|k: int| 0 <= k < all.len() && all[k] == (i, need);
            if k < before.len() {
                assert(before[k] == (i, need));
            }
        }
        if before.contains((i, need)) {
            let k = choose|k: int| 0 <= k < before.len() && before[k] == (i, need);
            assert(all[k] == (i, need));
        }
        if i == n - 1 && classify(bundle, context, processes[i as int], facts[i as int])
            == Class::Needs(need) {
            assert(all[all.len() - 1] == (i, need));
        }
    }
}

/// Recording software runs exactly when some process shows it.
pub proof fn law_recording(context: Context, processes: Seq<Exec>, facts: Seq<Facts>, n: int)
    ensures
        recording(context, processes, facts, n) <==> exists|i: int|
            0 <= i < n && #[trigger] shows_recording(context, processes[i], facts[i]),
    decreases n,
{
    if n > 0 {
        law_recording(context, processes, facts, n - 1);
        if shows_recording(context, processes[n - 1], facts[n - 1]) {
            assert(recording(context, processes, facts, n));
        }
    }
}

/// Removing overrides by name removes those and no others.
pub proof fn law_not_named(
    list: Seq<Arc<ScannedEntry>>,
    name: Seq<char>,
    entry: Arc<ScannedEntry>,
)
    ensures
        not_named(list, name).contains(entry) <==> list.contains(entry) && entry.name@ != name,
    decreases list.len(),
{
    if list.len() > 0 {
        let front = list.drop_last();
        law_not_named(front, name, entry);
        let before = not_named(front, name);
        let all = not_named(list, name);
        if all.contains(entry) {
            let k = choose|k: int| 0 <= k < all.len() && all[k] == entry;
            if k < before.len() {
                assert(before[k] == entry);
                let i = choose|i: int| 0 <= i < front.len() && front[i] == entry;
                assert(list[i] == entry);
            } else {
                assert(list[list.len() - 1] == entry);
            }
        }
        if list.contains(entry) && entry.name@ != name {
            let i = choose|i: int| 0 <= i < list.len() && list[i] == entry;
            if i < front.len() {
                assert(front[i] == entry);
                let k = choose|k: int| 0 <= k < before.len() && before[k] == entry;
                assert(all[k] == entry);
            } else {
                assert(all[all.len() - 1] == entry);
            }
        }
    }
}

/// Every reported sighting is a finding of an application that was not seen
/// before, no application is reported twice, and each application that is
/// reported counts as seen. Below the bound every application that was found
/// counts as seen; what was seen once stays seen.
#[verifier::rlimit(40)]
pub proof fn law_sightings(seen: Seq<Seq<char>>, detected: Seq<ScannedHit>, x: Seq<char>)
    ensures
        ({
            let (out, known) = sightings(seen, detected);
            &&& forall|i: int|
                #![trigger out[i]]
                0 <= i < out.len() ==> detected.contains(out[i]) && !seen.contains(
                    out[i].entry.id@,
                ) && known.contains(out[i].entry.id@)
            &&& forall|i: int, j: int|
                0 <= i < j < out.len() ==> (#[trigger] out[i]).entry.id@ != (
                #[trigger] out[j]).entry.id@
            &&& seen.contains(x) ==> known.contains(x)
            &&& known.contains(x) && !seen.contains(x) ==> exists|i: int|
                0 <= i < out.len() && (#[trigger] out[i]).entry.id@ == x
            &&& known.len() < MAX_SEEN_IDS ==> forall|i: int|
                0 <= i < detected.len() ==> known.contains((#[trigger] detected[i]).entry.id@)
            &&& known.len() == seen.len() + out.len()
        }),
    decreases detected.len(),
{
    if detected.len() > 0 {
        let front = detected.drop_last();
        let last = detected.last();
        law_sightings(seen, front, x);
        law_sightings(seen, front, last.entry.id@);
        let (before, had) = sightings(seen, front);
        let (out, known) = sightings(seen, detected);
        let news = had.len() < MAX_SEEN_IDS && !had.contains(last.entry.id@);
        assert forall|id: Seq<char>| #[trigger] had.contains(id) implies known.contains(id) by {
            let k = choose|k: int| 0 <= k < had.len() && had[k] == id;
            assert(known[k] == id);
        }
        if news {
            assert(known[known.len() - 1] == last.entry.id@);
            assert(out[out.len() - 1] == last);
            if known.contains(x) && !had.contains(x) {
                let k = choose|k: int| 0 <= k < known.len() && known[k] == x;
                if k < had.len() {
                    assert(had[k] == x);
                }
            }
        }
        assert forall|i: int|
            #![trigger out[i]]
            0 <= i < out.len() implies detected.contains(out[i]) && !seen.contains(
            out[i].entry.id@,
        ) && known.contains(out[i].entry.id@) by {
            if i < before.len() {
                assert(out[i] == before[i]);
                assert(front.contains(before[i]));
                let k = choose|k: int| 0 <= k < front.len() && front[k] == before[i];
                assert(detected[k] == before[i]);
            } else {
                assert(detected[detected.len() - 1] == last);
            }
        }
        assert forall|i: int, j: int| 0 <= i < j < out.len() implies (
        #[trigger] out[i]).entry.id@ != (#[trigger] out[j]).entry.id@ by {
            assert(out[i] == before[i]);
            if j < before.len() {
                assert(out[j] == before[j]);
            } else {
                assert(had.contains(before[i].entry.id@));
            }
        }
        if known.contains(x) && !seen.contains(x) {
            if had.contains(x) {
                let i = choose|i: int| 0 <= i < before.len() && (#[trigger] before[i]).entry.id@ == x;
                assert(out[i] == before[i]);
            } else {
                assert(out[out.len() - 1].entry.id@ == x);
            }
        }
        if known.len() < MAX_SEEN_IDS {
            assert forall|i: int| 0 <= i < detected.len() implies known.contains(
                (#[trigger] detected[i]).entry.id@,
            ) by {
                if i < front.len() {
                    assert(front[i] == detected[i]);
                }
            }
        }
    }
}

/// Ignored applications leave a scan, and no others.
pub proof fn law_unignored(detected: Seq<ScannedHit>, ignored: Seq<Seq<char>>, hit: ScannedHit)
    ensures
        unignored(detected, ignored).contains(hit) <==> detected.contains(hit)
            && !ignored.contains(hit.entry.id@),
    decreases detected.len(),
{
    if detected.len() > 0 {
        let front = detected.drop_last();
        law_unignored(front, ignored, hit);
        let before = unignored(front, ignored);
        let all = unignored(detected, ignored);
        if all.contains(hit) {
            let k = choose|k: int| 0 <= k < all.len() && all[k] == hit;
            if k < before.len() {
                assert(before[k] == hit);
                let i = choose|i: int| 0 <= i < front.len() && front[i] == hit;
                assert(detected[i] == hit);
            } else {
                assert(detected[detected.len() - 1] == hit);
            }
        }
        if detected.contains(hit) && !ignored.contains(hit.entry.id@) {
            let i = choose|i: int| 0 <= i < detected.len() && detected[i] == hit;
            if i < front.len() {
                assert(front[i] == hit);
                let k = choose|k: int| 0 <= k < before.len() && before[k] == hit;
                assert(all[k] == hit);
            } else {
                assert(all[all.len() - 1] == hit);
            }
        }
    }
}

/// The processes of a scan are those of its findings.
pub proof fn law_pids(hits: Seq<ScannedHit>, pid: u64)
    ensures
        pids_of(hits).contains(pid) <==> exists|i: int|
            0 <= i < hits.len() && (#[trigger] hits[i]).pid == pid,
    decreases hits.len(),
{
    if hits.len() > 0 {
        let front = hits.drop_last();
        law_pids(front, pid);
        if pids_of(front).contains(pid) {
            let i = choose|i: int| 0 <= i < front.len() && (#[trigger] front[i]).pid == pid;
            assert(hits[i] == front[i]);
        }
        if exists|i: int| 0 <= i < hits.len() && (#[trigger] hits[i]).pid == pid {
            let i = choose|i: int| 0 <= i < hits.len() && (#[trigger] hits[i]).pid == pid;
            if i < front.len() {
                assert(front[i] == hits[i]);
            }
        }
        assert(hits[hits.len() - 1] == hits.last());
    }
}

/// What is noted of a process is what is read of it next, and nothing changes
/// for any other process. A process that was forgotten is new again.
pub proof fn law_memory(
    s: Seq<MemoView>,
    pid: u64,
    generation: u64,
    value: Option<Option<Seq<char>>>,
    other: u64,
)
    requires
        other != pid,
    ensures
        memo_of(memorised(s, pid, generation, value), pid) == (generation, value),
        memo_of(memorised(s, pid, generation, value), other) == memo_of(s, other),
        memo_of(forgotten(s, pid), pid) == (0u64, None::<Option<Seq<char>>>),
        memo_of(forgotten(s, pid), other) == memo_of(s, other),
{
    lemma_forgotten(s, pid, pid);
    lemma_forgotten(s, pid, other);
    let kept = forgotten(s, pid);
    let all = memorised(s, pid, generation, value);
    assert(all.drop_last() =~= kept);
}

proof fn lemma_forgotten(s: Seq<MemoView>, pid: u64, other: u64)
    ensures
        memo_of(forgotten(s, pid), other) == if other == pid {
            (0u64, None::<Option<Seq<char>>>)
        } else {
            memo_of(s, other)
        },
    decreases s.len(),
{
    if s.len() > 0 {
        lemma_forgotten(s.drop_last(), pid, other);
        if s.last().pid != pid {
            assert(forgotten(s, pid).drop_last() =~= forgotten(s.drop_last(), pid));
        }
    }
}

/// The cadence begins at its base, doubles with every idle tick, and stops at
/// its limit.
pub proof fn law_cadence_doubles(base: nat, idle_ticks: nat)
    ensures
        stretched(base, 0) == if base < MAX_BACKOFF_NANOS {
            base
        } else {
            MAX_BACKOFF_NANOS as nat
        },
        stretched(base, idle_ticks + 1) == if 2 * stretched(base, idle_ticks) < MAX_BACKOFF_NANOS {
            2 * stretched(base, idle_ticks)
        } else {
            MAX_BACKOFF_NANOS as nat
        },
        MAX_BACKOFF_NANOS == 30_000_000_000,
{
    lemma_pow2_unfold(idle_ticks + 1);
    lemma2_to64();
    let p = pow2(idle_ticks);
    assert(pow2(idle_ticks + 1) == 2 * p);
    assert(base * (2 * p) == 2 * (base * p)) by (nonlinear_arith);
    assert(base * 1 == base);
}

/// A second on the clock is a thousand milliseconds, and a million nanoseconds
/// are one.
pub proof fn law_clock_in_millis(secs: u64, nanos: u32)
    requires
        secs < 1_000_000_000_000,
        nanos < 1_000_000_000,
    ensures
        millis_of(Some((secs, nanos))) == secs * 1000 + nanos as int / 1_000_000,
        millis_of(Some(((secs + 1) as u64, nanos))) == millis_of(Some((secs, nanos))) + 1000,
        millis_of(None) == 0,
{
}

/// The platforms' own tags apply on them, and on no other known platform; an
/// unknown platform takes any.
pub proof fn law_platforms(os: Seq<char>)
    ensures
        os_applies(Platform::Windows, os) <==> os == "win32"@,
        os_applies(Platform::MacOs, os) <==> os == "darwin"@,
        os_applies(Platform::Linux, os) <==> os == "linux"@,
        os_applies(Platform::Other, os),
{
}

proof fn lemma_words_gap(s: Seq<char>, gap: Seq<char>, dots: bool)
    requires
        forall|i: int| 0 <= i < gap.len() ==> breaks(#[trigger] gap[i], dots),
    ensures
        words(s + gap, dots) == words(s, dots),
    decreases gap.len(),
{
    if gap.len() == 0 {
        assert(s + gap =~= s);
    } else {
        let front = gap.drop_last();
        assert((s + gap).drop_last() =~= s + front);
        assert((s + gap).last() == gap[gap.len() - 1]);
        assert forall|i: int| 0 <= i < front.len() implies breaks(#[trigger] front[i], dots) by {
            assert(front[i] == gap[i]);
        }
        lemma_words_gap(s, front, dots);
    }
}

proof fn lemma_words_next(s: Seq<char>, w: Seq<char>, dots: bool)
    requires
        s.len() == 0 || breaks(s.last(), dots),
        w.len() > 0,
        forall|i: int| 0 <= i < w.len() ==> !breaks(#[trigger] w[i], dots),
    ensures
        words(s + w, dots) == words(s, dots).push(w),
    decreases w.len(),
{
    let t = s + w;
    assert(t.last() == w[w.len() - 1]);
    assert(!breaks(t.last(), dots));
    if w.len() == 1 {
        assert(t.drop_last() =~= s);
        assert(w =~= seq![w.last()]);
        if t.len() > 1 {
            assert(t[t.len() - 2] == s.last());
        }
    } else {
        let v = w.drop_last();
        assert(t.drop_last() =~= s + v);
        assert forall|i: int| 0 <= i < v.len() implies !breaks(#[trigger] v[i], dots) by {
            assert(v[i] == w[i]);
        }
        lemma_words_next(s, v, dots);
        assert(t[t.len() - 2] == v[v.len() - 1]);
        assert(!breaks(t[t.len() - 2], dots));
        let before = words(s, dots);
        assert(before.push(v).update(before.len() as int, v.push(w.last())) =~= before.push(
            v.push(w.last()),
        ));
        assert(v.push(w.last()) =~= w);
    }
}

/// Two words of a name are compared with one space between them, in lower case,
/// whatever white space and forbidden punctuation stands between, before and
/// behind them.
#[verifier::rlimit(40)]
pub proof fn law_comparison_form(
    lead: Seq<char>,
    first: Seq<char>,
    gap: Seq<char>,
    second: Seq<char>,
    tail: Seq<char>,
)
    requires
        first.len() > 0,
        second.len() > 0,
        gap.len() > 0,
        forall|i: int| 0 <= i < lead.len() ==> breaks(#[trigger] lead[i], false),
        forall|i: int| 0 <= i < first.len() ==> !breaks(#[trigger] first[i], false),
        forall|i: int| 0 <= i < gap.len() ==> breaks(#[trigger] gap[i], false),
        forall|i: int| 0 <= i < second.len() ==> !breaks(#[trigger] second[i], false),
        forall|i: int| 0 <= i < tail.len() ==> breaks(#[trigger] tail[i], false),
    ensures
        normalized(lead + first + gap + second + tail) == lower(first).push(' ') + lower(second),
{
    let name = lead + first + gap + second + tail;
    lemma_fold_keeps_breaks(lead);
    lemma_fold_keeps_breaks(first);
    lemma_fold_keeps_breaks(gap);
    lemma_fold_keeps_breaks(second);
    lemma_fold_keeps_breaks(tail);
    let (l, f, g, s, t) = (lower(lead), lower(first), lower(gap), lower(second), lower(tail));
    assert(lower(name) =~= l + f + g + s + t);
    let none = Seq::<char>::empty();
    assert(forall|i: int| 0 <= i < l.len() ==> breaks(#[trigger] l[i], false)) by {
        assert forall|i: int| 0 <= i < l.len() implies breaks(#[trigger] l[i], false) by {
            assert(breaks(lead[i], false));
        }
    }
    lemma_words_gap(none, l, false);
    assert(none + l =~= l);
    assert forall|i: int| 0 <= i < f.len() implies !breaks(#[trigger] f[i], false) by {
        assert(!breaks(first[i], false));
    }
    lemma_words_next(l, f, false);
    assert forall|i: int| 0 <= i < g.len() implies breaks(#[trigger] g[i], false) by {
        assert(breaks(gap[i], false));
    }
    lemma_words_gap(l + f, g, false);
    assert((l + f + g).last() == g[g.len() - 1]);
    assert(breaks(g[g.len() - 1], false));
    assert forall|i: int| 0 <= i < s.len() implies !breaks(#[trigger] s[i], false) by {
        assert(!breaks(second[i], false));
    }
    lemma_words_next(l + f + g, s, false);
    assert forall|i: int| 0 <= i < t.len() implies breaks(#[trigger] t[i], false) by {
        assert(breaks(tail[i], false));
    }
    lemma_words_gap(l + f + g + s, t, false);
    assert(words(none, false) =~= Seq::empty());
    let ws = words(lower(name), false);
    assert(ws =~= seq![f, s]);
    assert(ws.drop_last() =~= seq![f]);
    assert(joined(seq![f]) == f);
}

proof fn lemma_fold_keeps_breaks(s: Seq<char>)
    ensures
        forall|i: int|
            0 <= i < s.len() ==> (breaks(#[trigger] lower(s)[i], false) == breaks(s[i], false)),
{
    assert forall|i: int| 0 <= i < s.len() implies breaks(#[trigger] lower(s)[i], false) == breaks(
        s[i],
        false,
    ) by {
        let c = s[i];
        if 'A' <= c <= 'Z' {
            assert(!white(c) && !forbidden(c));
            let d = lower(s)[i];
            assert('a' <= d <= 'z');
            assert(!white(d) && !forbidden(d));
        }
    }
}

/// The punctuation that no Windows file name holds.
pub proof fn law_forbidden_punctuation(c: char)
    ensures
        forbidden(c) <==> seq!['<', '>', ':', '"', '/', '\\', '|', '?', '*'].contains(c),
{
    let all = seq!['<', '>', ':', '"', '/', '\\', '|', '?', '*'];
    assert(all[0] == '<' && all[1] == '>' && all[2] == ':' && all[3] == '"' && all[4] == '/'
        && all[5] == '\\' && all[6] == '|' && all[7] == '?' && all[8] == '*');
}

/// A tick that reports reports each finding as it is, and nothing else as
/// found.
pub proof fn law_tick_reports_the_findings(
    last: Seq<SlotView>,
    hits: Seq<ScannedHit>,
    forced: bool,
    hit: ScannedHit,
)
    ensures
        tick_events(last, hits, forced).contains(EventView::Detected(hit)) <==> (snapshot(hits)
            != last || forced) && hits.contains(hit),
        tick_events(last, hits, forced).contains(EventView::Cleared) <==> (snapshot(hits) != last
            || forced) && hits.len() == 0,
{
    let events = tick_events(last, hits, forced);
    let lost = vanished(last, snapshot(hits));
    if snapshot(hits) != last || forced {
        if events.contains(EventView::Detected(hit)) {
            let k = choose|k: int| 0 <= k < events.len() && events[k] == EventView::Detected(hit);
            assert(k >= lost.len());
            assert(hits[k - lost.len()] == hit);
        }
        if hits.contains(hit) {
            let i = choose|i: int| 0 <= i < hits.len() && hits[i] == hit;
            assert(events[lost.len() + i] == EventView::Detected(hit));
        }
        if events.contains(EventView::Cleared) {
            let k = choose|k: int| 0 <= k < events.len() && events[k] == EventView::Cleared;
            assert(k >= lost.len());
        }
        if hits.len() == 0 {
            assert(events[lost.len() as int] == EventView::Cleared);
        }
    }
}

/// Slots in order by process never step down in it, and slots of one process
/// are in the order of their applications; without that order the application
/// comes first.
pub proof fn law_slot_order(s: Seq<SlotView>, i: int, j: int)
    requires
        0 <= i < j < s.len(),
    ensures
        ordered(s, true).len() == s.len(),
        ordered(s, true)[i].1 <= ordered(s, true)[j].1,
        ordered(s, true)[i].1 == ordered(s, true)[j].1 ==> !lex_less(
            ordered(s, true)[j].0,
            ordered(s, true)[i].0,
        ),
        !lex_less(ordered(s, false)[j].0, ordered(s, false)[i].0),
        ordered(s, false)[i].0 == ordered(s, false)[j].0 ==> ordered(s, false)[i].1 <= ordered(
            s,
            false,
        )[j].1,
{
    law_ordered(s, true);
    law_ordered(s, false);
    assert(!slot_less(ordered(s, true)[j], ordered(s, true)[i], true));
    assert(!slot_less(ordered(s, false)[j], ordered(s, false)[i], false));
}

/// The limits of what is kept and read.
pub proof fn law_limits()
    ensures
        MAX_CMDLINE_BYTES == 65_536,
        MAX_ENVIRON_BYTES == 262_144,
        MAX_SEEN_IDS == 1024,
        MAX_PUBLICATIONS == 16,
        MAX_CACHED_ACTIVITIES == 50,
        MAX_STATE_SLOTS == 10,
        SOCKET_NAMES == 10,
{
}

/// A process is described by its own number, the first part of its command
/// line as its path, and the rest as its arguments; the file of the line is the
/// one of that process and of no other.
pub proof fn law_process_description(exec: Exec, pid: u64, other: u64, line: Seq<u8>)
    requires
        describes(exec, pid, line),
    ensures
        exec.pid == pid,
        exec.path@ == cmdline_parts(line)[0],
        opt_text(exec.arguments) == cmdline_args(line),
        cmdline_file(pid) == cmdline_file(other) ==> pid == other,
{
    reveal_strlit("/proc/");
    reveal_strlit("/cmdline");
    if cmdline_file(pid) == cmdline_file(other) {
        let (a, b) = (decimal(pid as nat), decimal(other as nat));
        let (s, t) = (cmdline_file(pid), cmdline_file(other));
        assert(s.len() == t.len());
        assert(s.subrange(6, 6 + a.len() as int) =~= a);
        assert(t.subrange(6, 6 + b.len() as int) =~= b);
        law_decimal_is_unique(pid as nat, other as nat);
    }
}

/// No more of a command line is read than its first bytes up to the limit, and
/// of those the longest part from the front that is a text.
pub proof fn law_long_command_line(line: Seq<u8>)
    ensures
        line.len() > MAX_CMDLINE_BYTES ==> cmdline_parts(line) == cmdline_parts(
            line.take(MAX_CMDLINE_BYTES as int),
        ),
        ({
            let end = text_end(line, line.len() as int);
            &&& 0 <= end <= line.len()
            &&& valid_utf8(line.take(end))
            &&& forall|k: int| end < k <= line.len() ==> !#[trigger] valid_utf8(line.take(k))
        }),
{
    lemma_text_end_is_longest(line, line.len() as int);
}

proof fn lemma_text_end_is_longest(line: Seq<u8>, n: int)
    requires
        0 <= n <= line.len(),
    ensures
        0 <= text_end(line, n) <= n,
        valid_utf8(line.take(text_end(line, n))),
        forall|k: int| text_end(line, n) < k <= n ==> !#[trigger] valid_utf8(line.take(k)),
    decreases n,
{
    if n > 0 && !valid_utf8(line.take(n)) {
        lemma_text_end_is_longest(line, n - 1);
    } else if n == 0 {
        assert(line.take(0) =~= Seq::empty());
    }
}

/// The key of the launcher id in an environment, and the file of a command
/// line.
pub proof fn law_system_names(pid: u64)
    ensures
        app_id_key() == encode_utf8("SteamAppId="@),
        cmdline_file(pid) == "/proc/"@ + decimal(pid as nat) + "/cmdline"@,
{
    let name = "SteamAppId="@;
    reveal_strlit("SteamAppId=");
    assert(is_ascii_chars(name));
    is_ascii_chars_encode_utf8(name);
    assert(name[0] as u8 == 83 && name[1] as u8 == 116 && name[2] as u8 == 101 && name[3] as u8
        == 97 && name[4] as u8 == 109 && name[5] as u8 == 65 && name[6] as u8 == 112
        && name[7] as u8 == 112 && name[8] as u8 == 73 && name[9] as u8 == 100 && name[10] as u8
        == 61);
    assert(app_id_key() =~= encode_utf8(name));
}

} // verus!
