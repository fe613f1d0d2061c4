//! Laws of what is served: the greeting of a consumer, the consumers that
//! listen, the sockets, the directories and the files of snapshots.
use crate::bridge::{greeting, BridgeConfig, PortScan, Shared};
use crate::census::{census_text, memory_text, tenths_of_mb, StatsSnapshot};
use crate::consumer::{frame, payload_frame, raw_frame, BridgeProtocol, ConsumersView};
use crate::detectables::Platform;
use crate::error::RsrpcError;
use crate::ipc::socket_name;
use crate::json::{json_i64, json_str, json_text, json_u64, msgpack_of, msgpack_sorted, opt_text};
use crate::message::MessageView;
use crate::origin::unslashed;
use crate::paths::{
    candidates, components, file_name, is_component, lists, ours, path_parts, same_path, with_dir,
};
use crate::payload::{CachedView, CmdView};
use crate::presence::exclusive;
use crate::replay::{entry_pid, CacheView};
use crate::router::bumped;
use crate::scan_loop::Validators;
use crate::server::ProcessServer;
use crate::state::{
    abandoned, cache_facts, inside, our_temp, slot_free, slot_name, stamp_free, temp_path,
};
use crate::table::{lookup, texts};
use crate::text::{at, decimal, digit, holds, law_decimal_round_trip, lemma_rfind, rfind, split};
use crate::text_laws::{
    law_decimal_is_unique, law_parsed_decimal, law_parsed_refuses, law_split, lemma_split_at_last,
    without_char,
};
use crate::user::{ready_json, RpcUser, UserView};
use vstd::prelude::*;

verus! {

/// A consumer that joins late is greeted and then sent every cached card, oldest
/// first, each in its own encoding.
pub proof fn law_late_joiner_sees_every_card(user: UserView, cache: CacheView, k: int)
    requires
        0 <= k < cache.len(),
    ensures
        ({
            let sent = greeting(user, cache, BridgeProtocol::Json);
            &&& sent.len() == cache.len() + 1
            &&& sent[0] == MessageView::Text(ready_json(user))
            &&& sent[k + 1] == MessageView::Text(cache[k].1.0.json)
        }),
        msgpack_sorted(ready_json(user)) matches Some(ready) ==> {
            let sent = greeting(user, cache, BridgeProtocol::MsgPack);
            &&& sent.len() == cache.len() + 1
            &&& sent[0] == MessageView::Binary(ready)
            &&& sent[k + 1] == MessageView::Binary(cache[k].1.0.msgpack)
        },
{
}

/// A consumer that joins listens in its encoding and in no other; one that
/// leaves listens in none. Others are not touched, and nothing is counted as
/// lost.
pub proof fn law_joining_and_leaving(
    state: ConsumersView,
    id: u64,
    protocol: BridgeProtocol,
    other_protocol: BridgeProtocol,
    other: u64,
)
    requires
        other != id,
    ensures
        state.joined(id, protocol).clients(other_protocol).contains(id) <==> other_protocol
            == protocol,
        state.joined(id, protocol).clients(other_protocol).contains(other) <==> state.clients(
            other_protocol,
        ).contains(other),
        !state.left(id).clients(other_protocol).contains(id),
        state.left(id).clients(other_protocol).contains(other) <==> state.clients(
            other_protocol,
        ).contains(other),
        state.joined(id, protocol).protocols.contains_pair(id, protocol),
        !state.left(id).protocols.contains_key(id),
        state.joined(id, protocol).dropped == state.dropped,
        state.left(id).dropped == state.dropped,
{
}

/// Each consumer that a failed send loses is counted once, if losses are
/// counted, and not at all otherwise; one that was not listening is not.
pub proof fn law_losses_are_counted(
    state: ConsumersView,
    protocol: BridgeProtocol,
    dead: Seq<u64>,
    id: u64,
)
    ensures
        state.pruned(protocol, dead, false).dropped == state.dropped,
        state.pruned(protocol, seq![id], true).dropped == if state.clients(protocol).contains(id) {
            bumped(state.dropped)
        } else {
            state.dropped
        },
        state.pruned(protocol, dead.push(id), true).dropped == if state.pruned(
            protocol,
            dead,
            true,
        ).clients(protocol).contains(id) {
            bumped(state.pruned(protocol, dead, true).dropped)
        } else {
            state.pruned(protocol, dead, true).dropped
        },
        bumped(state.dropped) != state.dropped,
        state.dropped < u64::MAX ==> bumped(state.dropped) == state.dropped + 1,
    decreases dead.len(),
{
    reveal_with_fuel(ConsumersView::pruned, 2);
    assert(seq![id].drop_last() =~= Seq::empty());
    assert(dead.push(id).drop_last() =~= dead);
    if dead.len() > 0 {
        law_losses_are_counted(state, protocol, dead.drop_last(), id);
    }
}

/// A message of either encoding carries the same payload: the JSON text itself,
/// or its binary form.
pub proof fn law_frames(data: Seq<char>, payload: CachedView)
    ensures
        frame(data, BridgeProtocol::Json) == Some(MessageView::Text(data)),
        frame(data, BridgeProtocol::MsgPack) is Some <==> msgpack_sorted(data) is Some,
        payload_frame(payload, BridgeProtocol::Json) == MessageView::Text(payload.json),
        payload_frame(payload, BridgeProtocol::MsgPack) == MessageView::Binary(payload.msgpack),
{
}

/// The socket names of one base differ from one another and all begin with the
/// base.
pub proof fn law_socket_names(base: Seq<char>, attempt: u8, other: u8)
    ensures
        socket_name(base, attempt) == socket_name(base, other) ==> attempt == other,
        at(socket_name(base, attempt), 0, base),
{
    reveal_strlit("-");
    let (a, b) = (socket_name(base, attempt), socket_name(base, other));
    assert(a.subrange(0, base.len() as int) =~= base);
    if a == b {
        let n = base.len() as int + 1;
        assert(a.skip(n) =~= decimal(attempt as nat));
        assert(b.skip(n) =~= decimal(other as nat));
        law_decimal_is_unique(attempt as nat, other as nat);
    }
}

proof fn lemma_with_dir_keeps(dirs: Seq<Seq<char>>, value: Option<Seq<char>>, dir: Seq<char>)
    requires
        exists|j: int| 0 <= j < dirs.len() && same_path(#[trigger] dirs[j], dir),
    ensures
        exists|j: int|
            0 <= j < with_dir(dirs, value).len() && same_path(
                #[trigger] with_dir(dirs, value)[j],
                dir,
            ),
{
    let j = choose|j: int| 0 <= j < dirs.len() && same_path(#[trigger] dirs[j], dir);
    assert(with_dir(dirs, value)[j] == dirs[j]);
}

proof fn lemma_with_dir_adds(dirs: Seq<Seq<char>>, value: Seq<char>)
    requires
        unslashed(value).len() > 0,
        !same_path(unslashed(value), "/tmp"@),
    ensures
        exists|j: int|
            0 <= j < with_dir(dirs, Some(value)).len() && same_path(
                #[trigger] with_dir(dirs, Some(value))[j],
                unslashed(value),
            ),
{
    let dir = unslashed(value);
    let after = with_dir(dirs, Some(value));
    if lists(dirs, dir) {
        let j = choose|j: int| 0 <= j < dirs.len() && same_path(#[trigger] dirs[j], dir);
        assert(after[j] == dirs[j]);
    } else {
        assert(after[dirs.len() as int] == dir);
    }
}

/// Every directory that the environment names is a candidate, the temporary
/// directory of the system always is, and the first that is named comes first.
#[verifier::rlimit(40)]
pub proof fn law_candidates_cover(vars: Seq<Option<Seq<char>>>, i: int, value: Seq<char>)
    requires
        vars.len() == 4,
        0 <= i < 4,
        vars[i] == Some(value),
        unslashed(value).len() > 0,
    ensures
        exists|j: int|
            0 <= j < candidates(vars).len() && same_path(
                #[trigger] candidates(vars)[j],
                unslashed(value),
            ),
        (forall|k: int| 0 <= k < i ==> (#[trigger] vars[k]) is None) && !same_path(
            unslashed(value),
            "/tmp"@,
        ) ==> candidates(vars)[0] == unslashed(value),
        candidates(vars).last() == "/tmp"@,
{
    let dir = unslashed(value);
    let d0 = Seq::<Seq<char>>::empty();
    let d1 = with_dir(d0, vars[0]);
    let d2 = with_dir(d1, vars[1]);
    let d3 = with_dir(d2, vars[2]);
    let d4 = with_dir(d3, vars[3]);
    let all = candidates(vars);
    assert(all == d4.push("/tmp"@));
    if same_path(dir, "/tmp"@) {
        assert(all[d4.len() as int] == "/tmp"@);
        assert(same_path(all[d4.len() as int], dir));
    } else {
        let before = if i == 0 {
            d0
        } else if i == 1 {
            d1
        } else if i == 2 {
            d2
        } else {
            d3
        };
        lemma_with_dir_adds(before, value);
        if i <= 0 {
            lemma_with_dir_keeps(d1, vars[1], dir);
        }
        if i <= 1 {
            lemma_with_dir_keeps(d2, vars[2], dir);
        }
        if i <= 2 {
            lemma_with_dir_keeps(d3, vars[3], dir);
        }
        let j = choose|j: int| 0 <= j < d4.len() && same_path(#[trigger] d4[j], dir);
        assert(all[j] == d4[j]);
        if forall|k: int| 0 <= k < i ==> (#[trigger] vars[k]) is None {
            assert(before =~= d0) by {
                if i > 0 {
                    assert(vars[0] is None);
                }
                if i > 1 {
                    assert(vars[1] is None);
                }
                if i > 2 {
                    assert(vars[2] is None);
                }
            }
            assert(!lists(d0, dir));
            assert(with_dir(before, vars[i]) =~= seq![dir]);
            assert(d4[0] == dir);
        }
    }
}

proof fn lemma_last_part(dir: Seq<char>, name: Seq<char>)
    requires
        without_char(name, '/'),
        name.len() > 0,
        name != "."@,
    ensures
        path_parts(dir.push('/') + name).len() > 0,
        path_parts(dir.push('/') + name).last() == name,
{
    lemma_split_at_last(dir, '/', name);
    let pieces = split(dir.push('/') + name, '/');
    assert(pieces.last() == name);
    assert(pieces[pieces.len() - 1] == name);
    assert(is_component(name, pieces.len() == 1));
    assert(components(pieces, pieces.len() as int) == components(pieces, pieces.len() - 1).push(
        name,
    ));
}

/// The file name of a path is what follows its last slash. A link is ours
/// exactly when its target's file name begins with the name of our sockets.
pub proof fn law_link_targets(dir: Seq<char>, name: Seq<char>)
    requires
        without_char(name, '/'),
        name.len() > 2,
    ensures
        file_name(dir.push('/') + name) == Some(name),
        ours(Some(dir.push('/') + name)) == at(name, 0, "discord-ipc-"@),
        !ours(None),
{
    reveal_strlit(".");
    reveal_strlit("..");
    assert("."@.len() == 1 && ".."@.len() == 2);
    lemma_last_part(dir, name);
}

proof fn lemma_no_mark(n: nat, c: char)
    requires
        !digit(c),
    ensures
        without_char(decimal(n), c),
{
    law_decimal_round_trip(n);
    assert forall|i: int| 0 <= i < decimal(n).len() implies decimal(n)[i] != c by {
        assert(digit(decimal(n)[i]));
    }
}

/// The slots have different names, and none of them looks like a temporary
/// file.
pub proof fn law_slot_names(index: nat, other: nat)
    ensures
        slot_name(index) == slot_name(other) ==> index == other,
        !our_temp(slot_name(index)),
        at(slot_name(index), 0, "rsrpc-state-"@),
{
    reveal_strlit("rsrpc-state-");
    let (a, b) = (slot_name(index), slot_name(other));
    assert(a.subrange(0, 12) =~= "rsrpc-state-"@);
    if a == b {
        assert(a.skip(12) =~= decimal(index));
        assert(b.skip(12) =~= decimal(other));
        law_decimal_is_unique(index, other);
    }
    lemma_rfind(a, '.');
    lemma_no_mark(index, '.');
    if rfind(a, '.') >= 0 {
        let p = rfind(a, '.');
        if p < 12 {
            assert(a[p] == "rsrpc-state-"@[p]);
        } else {
            assert(a[p] == decimal(index)[p - 12]);
        }
    }
}

/// The temporary file of a slot's name.
pub open spec fn temp_name(index: nat, pid: u64, serial: u64) -> Seq<char> {
    slot_name(index) + ".tmp-"@ + decimal(pid as nat) + "-"@ + decimal(serial as nat)
}

/// A write goes to a temporary file beside its slot. The file is one that a
/// sweep knows as ours, and no two writes, of one process or of two, share it.
#[verifier::rlimit(40)]
pub proof fn law_temporary_files(
    dir: Seq<char>,
    index: nat,
    pid: u64,
    serial: u64,
    other_pid: u64,
    other_serial: u64,
)
    ensures
        temp_path(inside(dir, slot_name(index)), pid, serial) == inside(
            dir,
            temp_name(index, pid, serial),
        ),
        our_temp(temp_name(index, pid, serial)),
        temp_name(index, pid, serial) == temp_name(index, other_pid, other_serial) ==> pid
            == other_pid && serial == other_serial,
{
    let name = slot_name(index);
    let path = inside(dir, name);
    reveal_strlit("rsrpc-state-");
    lemma_no_mark(index, '.');
    lemma_no_mark(index, '/');
    assert forall|i: int| 0 <= i < name.len() implies name[i] != '.' && name[i] != '/' by {
        if i < 12 {
            assert(name[i] == "rsrpc-state-"@[i]);
        } else {
            assert(name[i] == decimal(index)[i - 12]);
        }
    }
    lemma_rfind(path, '/');
    lemma_rfind(path, '.');
    let start = path.len() - name.len();
    assert forall|i: int| start <= i < path.len() implies path[i] == name[i - start] by {}
    if rfind(path, '.') > rfind(path, '/') + 1 {
        let p = rfind(path, '.');
        assert(p < start) by {
            if p >= start {
                assert(path[p] == name[p - start]);
            }
        }
        if dir.len() > 0 {
            assert(path[start - 1] == '/');
        }
        assert(false);
    }
    assert(temp_path(path, pid, serial) =~= inside(dir, temp_name(index, pid, serial)));
    law_slot_names(index, index);
    lemma_temp_is_ours(name, pid, serial);
    lemma_temp_unique(name, pid, serial, other_pid, other_serial);
}

#[verifier::rlimit(40)]
proof fn lemma_temp_is_ours(name: Seq<char>, pid: u64, serial: u64)
    requires
        at(name, 0, "rsrpc-state-"@),
    ensures
        our_temp(name + ".tmp-"@ + decimal(pid as nat) + "-"@ + decimal(serial as nat)),
{
    reveal_strlit("rsrpc-state-");
    reveal_strlit(".tmp-");
    reveal_strlit("tmp-");
    reveal_strlit("-");
    let t = name + ".tmp-"@ + decimal(pid as nat) + "-"@ + decimal(serial as nat);
    let n = name.len() as int;
    let d = decimal(pid as nat);
    let e = decimal(serial as nat);
    lemma_no_mark(pid as nat, '.');
    lemma_no_mark(serial as nat, '.');
    assert(t.subrange(0, 12) =~= name.subrange(0, 12));
    lemma_rfind(t, '.');
    assert(t[n] == ".tmp-"@[0]);
    assert forall|i: int| n < i < t.len() implies t[i] != '.' by {
        if i < n + 5 {
            assert(t[i] == ".tmp-"@[i - n]);
        } else if i < n + 5 + d.len() {
            assert(t[i] == d[i - n - 5]);
        } else if i == n + 5 + d.len() {
            assert(t[i] == "-"@[0]);
        } else {
            assert(t[i] == e[i - n - 6 - d.len()]);
        }
    }
    assert(rfind(t, '.') == n);
    assert(t.subrange(n + 1, n + 1 + 4) =~= "tmp-"@);
}

#[verifier::rlimit(40)]
proof fn lemma_temp_unique(
    name: Seq<char>,
    pid: u64,
    serial: u64,
    other_pid: u64,
    other_serial: u64,
)
    ensures
        name + ".tmp-"@ + decimal(pid as nat) + "-"@ + decimal(serial as nat) == name + ".tmp-"@
            + decimal(other_pid as nat) + "-"@ + decimal(other_serial as nat) ==> pid == other_pid
            && serial == other_serial,
{
    reveal_strlit("-");
    let head = name + ".tmp-"@;
    let (a, b) = (decimal(pid as nat), decimal(serial as nat));
    let (c, d) = (decimal(other_pid as nat), decimal(other_serial as nat));
    let s = head + a + "-"@ + b;
    let t = head + c + "-"@ + d;
    if s == t {
        let n = head.len() as int;
        lemma_no_mark(pid as nat, '-');
        lemma_no_mark(other_pid as nat, '-');
        if a.len() < c.len() {
            assert(s[n + a.len()] == "-"@[0]);
            assert(t[n + a.len()] == c[a.len() as int]);
        } else if c.len() < a.len() {
            assert(t[n + c.len()] == "-"@[0]);
            assert(s[n + c.len()] == a[c.len() as int]);
        }
        assert(a.len() == c.len());
        assert(s.subrange(n, n + a.len()) =~= a);
        assert(t.subrange(n, n + c.len()) =~= c);
        assert(s.skip(n + a.len() + 1) =~= b);
        assert(t.skip(n + c.len() + 1) =~= d);
        law_decimal_is_unique(pid as nat, other_pid as nat);
        law_decimal_is_unique(serial as nat, other_serial as nat);
    }
}

/// A temporary file is swept exactly when it is ours and more than ten seconds
/// old; a file whose age is not known, or that is from the future, is not, and
/// files of others never are.
pub proof fn law_sweep_of_files(name: Seq<char>, mtime_secs: u64, now_secs: u64)
    ensures
        abandoned(name, Some(mtime_secs), now_secs) <==> our_temp(name) && now_secs - mtime_secs
            > 10,
        !abandoned(name, None, now_secs),
        !at(name, 0, "rsrpc-state-"@) ==> !abandoned(name, Some(mtime_secs), now_secs),
{
}

/// A slot with a stamp is free exactly when the stamp is more than ten seconds
/// old, counted in whole seconds; a stamp from the future is fresh, and one
/// from before the epoch counts as the epoch.
pub proof fn law_stamps(timestamp_ms: i64, now_secs: u64)
    ensures
        stamp_free(None, now_secs),
        timestamp_ms >= 0 ==> (stamp_free(Some(timestamp_ms), now_secs) <==> now_secs
            - timestamp_ms as int / 1000 > 10),
        timestamp_ms < 0 ==> (stamp_free(Some(timestamp_ms), now_secs) <==> now_secs > 10),
{
}

/// A file lies in its directory whether or not that ends with a slash.
pub proof fn law_inside(dir: Seq<char>, name: Seq<char>)
    requires
        dir.len() > 0,
        dir.last() != '/',
    ensures
        inside(dir, name) == dir.push('/') + name,
        inside(dir.push('/'), name) == dir.push('/') + name,
        inside(Seq::empty(), name) == name,
{
    assert(Seq::<char>::empty() + name =~= name);
}

/// What a snapshot says of a card is what the card's payload says, under the
/// card's publisher.
pub proof fn law_snapshot_of_cards(cache: CacheView, k: int)
    requires
        0 <= k < cache.len(),
    ensures
        cache_facts(cache).len() == cache.len(),
        cache_facts(cache)[k].socket_id == cache[k].0,
        cache_facts(cache)[k].name == json_str(cache[k].1.0.json, "/activity/name"@),
        cache_facts(cache)[k].application_id == json_str(
            cache[k].1.0.json,
            "/activity/application_id"@,
        ),
        cache_facts(cache)[k].pid == json_u64(cache[k].1.0.json, "/pid"@),
        json_str(cache[k].1.0.json, "/activity/timestamps/start"@) matches Some(start)
            ==> cache_facts(cache)[k].start_time == Some(start),
        json_str(cache[k].1.0.json, "/activity/timestamps/start"@) is None ==> cache_facts(
            cache,
        )[k].start_time == json_text(cache[k].1.0.json, "/activity/timestamps/start"@),
{
}

/// The owner of a card is the number under which it was published, whatever
/// its payload says; a card under any other name belongs to the process of its
/// payload. Zero is nobody.
pub proof fn law_card_owner(pid: u64, name: Seq<char>, i: int, body_pid: Option<u64>)
    requires
        0 <= i < name.len(),
        !digit(name[i]),
        i > 0 || name[i] != '+',
    ensures
        pid != 0 ==> entry_pid(decimal(pid as nat), body_pid) == Some(pid),
        entry_pid(decimal(0), body_pid) is None,
        body_pid != Some(0u64) ==> entry_pid(name, body_pid) == body_pid,
        entry_pid(name, Some(0)) is None,
{
    law_parsed_decimal(pid as nat, u64::MAX as nat);
    law_parsed_decimal(0, u64::MAX as nat);
    law_parsed_refuses(name, i, u64::MAX as nat);
}

/// Memory is shown in mebibytes, rounded to the nearest tenth.
pub proof fn law_memory_text(bytes: u64)
    ensures
        -524_288 <= bytes * 10 - tenths_of_mb(bytes) * 1_048_576 <= 524_288,
        memory_text(Some(bytes)) == decimal(tenths_of_mb(bytes) / 10) + "."@ + decimal(
            tenths_of_mb(bytes) % 10,
        ) + "MB"@,
        memory_text(None) == "n/a"@,
{
}

proof fn lemma_holds_middle(a: Seq<char>, w: Seq<char>, b: Seq<char>)
    ensures
        holds(a + w + b, w),
{
    let s = a + w + b;
    assert(s.subrange(a.len() as int, a.len() as int + w.len()) =~= w);
    assert(at(s, a.len() as int, w));
}

/// A census names its reason, the memory, and each number behind its own label.
#[verifier::rlimit(40)]
pub proof fn law_census(reason: Seq<char>, s: StatsSnapshot)
    ensures
        holds(census_text(reason, s), "[stats] "@ + reason + " rss="@ + memory_text(s.rss_bytes)),
        holds(census_text(reason, s), " bridge=json:"@ + decimal(s.bridge_json as nat)),
        holds(census_text(reason, s), ",msgpack:"@ + decimal(s.bridge_msgpack as nat)),
        holds(census_text(reason, s), " ws="@ + decimal(s.ws as nat)),
        holds(census_text(reason, s), " queues=watch:"@ + decimal(s.watch_depth as nat)),
        holds(census_text(reason, s), ",proc:"@ + decimal(s.proc_depth as nat)),
        holds(census_text(reason, s), ",ws:"@ + decimal(s.ws_depth as nat)),
{
    let p0 = "[stats] "@ + reason + " rss="@ + memory_text(s.rss_bytes);
    let p1 = " bridge=json:"@ + decimal(s.bridge_json as nat);
    let p2 = ",msgpack:"@ + decimal(s.bridge_msgpack as nat);
    let p3 = " ws="@ + decimal(s.ws as nat);
    let p4 = " queues=watch:"@ + decimal(s.watch_depth as nat);
    let p5 = ",proc:"@ + decimal(s.proc_depth as nat);
    let p6 = ",ws:"@ + decimal(s.ws_depth as nat);
    let t = census_text(reason, s);
    let none = Seq::<char>::empty();
    assert(t =~= p0 + p1 + p2 + p3 + p4 + p5 + p6);
    assert(t =~= none + p0 + (p1 + p2 + p3 + p4 + p5 + p6));
    lemma_holds_middle(none, p0, p1 + p2 + p3 + p4 + p5 + p6);
    assert(t =~= p0 + p1 + (p2 + p3 + p4 + p5 + p6));
    lemma_holds_middle(p0, p1, p2 + p3 + p4 + p5 + p6);
    assert(t =~= p0 + p1 + p2 + (p3 + p4 + p5 + p6));
    lemma_holds_middle(p0 + p1, p2, p3 + p4 + p5 + p6);
    assert(t =~= p0 + p1 + p2 + p3 + (p4 + p5 + p6));
    lemma_holds_middle(p0 + p1 + p2, p3, p4 + p5 + p6);
    assert(t =~= p0 + p1 + p2 + p3 + p4 + (p5 + p6));
    lemma_holds_middle(p0 + p1 + p2 + p3, p4, p5 + p6);
    assert(t =~= p0 + p1 + p2 + p3 + p4 + p5 + p6);
    lemma_holds_middle(p0 + p1 + p2 + p3 + p4, p5, p6);
    assert(t =~= p0 + p1 + p2 + p3 + p4 + p5 + p6 + none);
    lemma_holds_middle(p0 + p1 + p2 + p3 + p4 + p5, p6, none);
}

/// Forwarded events go out as they came, in either encoding.
pub proof fn law_forwarded_frames(data: Seq<char>)
    ensures
        raw_frame(data, BridgeProtocol::Json) == Some(MessageView::Text(data)),
        msgpack_of(data) matches Some(bytes) ==> raw_frame(data, BridgeProtocol::MsgPack) == Some(
            MessageView::Binary(bytes),
        ),
        msgpack_of(data) is None ==> raw_frame(data, BridgeProtocol::MsgPack) is None,
{
}

/// A slot is free without contents and with contents that have no stamp; with
/// a stamp it is free as the stamp says.
pub proof fn law_slot_contents(text: Seq<char>, now_secs: u64)
    ensures
        slot_free(None, now_secs),
        json_i64(text, "/timestamp"@) is None ==> slot_free(Some(text), now_secs),
        json_i64(text, "/timestamp"@) matches Some(stamp) ==> (stamp >= 0 ==> (slot_free(
            Some(text),
            now_secs,
        ) <==> now_secs - stamp as int / 1000 > 10)),
{
}

/// An error of a bind names the range of ports that was tried, and its cause
/// where there is one.
pub proof fn law_error_messages(start: u16, end: u16, source: String, name: &'static str)
    ensures
        holds(
            (RsrpcError::WsExhausted { start, end }).message(),
            decimal(start as nat) + "-"@ + decimal(end as nat),
        ),
        holds(
            (RsrpcError::WsBind { start, end, source }).message(),
            decimal(start as nat) + "-"@ + decimal(end as nat),
        ),
        holds((RsrpcError::WsBind { start, end, source }).message(), source@),
        holds(
            (RsrpcError::BridgeBind { name, start, end }).message(),
            decimal(start as nat) + "-"@ + decimal(end as nat),
        ),
        holds((RsrpcError::BridgeBind { name, start, end }).message(), name@),
{
    lemma_range(
        "websocket bind failed on ports "@,
        decimal(start as nat),
        decimal(end as nat),
        ": all in use"@,
        Seq::empty(),
    );
    lemma_range(
        "websocket bind failed on ports "@,
        decimal(start as nat),
        decimal(end as nat),
        ": "@,
        source@,
    );
    lemma_range(
        "bridge "@ + name@ + " launch failed on ports "@,
        decimal(start as nat),
        decimal(end as nat),
        ": all in use"@,
        Seq::empty(),
    );
    lemma_label(
        "bridge "@,
        name@,
        " launch failed on ports "@,
        decimal(start as nat),
        "-"@,
        decimal(end as nat),
        ": all in use"@,
    );
}

proof fn lemma_range(
    head: Seq<char>,
    start: Seq<char>,
    end: Seq<char>,
    mark: Seq<char>,
    cause: Seq<char>,
)
    ensures
        holds(head + start + "-"@ + end + mark, start + "-"@ + end),
        holds(head + start + "-"@ + end + mark + cause, start + "-"@ + end),
        holds(head + start + "-"@ + end + mark + cause, cause),
{
    let range = start + "-"@ + end;
    let full = head + start + "-"@ + end + mark;
    assert(full =~= head + range + mark);
    lemma_holds_middle(head, range, mark);
    assert(full + cause =~= head + range + (mark + cause));
    lemma_holds_middle(head, range, mark + cause);
    assert(full + cause =~= full + cause + Seq::empty());
    lemma_holds_middle(full, cause, Seq::empty());
}

proof fn lemma_label(
    head: Seq<char>,
    name: Seq<char>,
    a: Seq<char>,
    b: Seq<char>,
    c: Seq<char>,
    d: Seq<char>,
    e: Seq<char>,
)
    ensures
        holds(head + name + a + b + c + d + e, name),
{
    assert(head + name + a + b + c + d + e =~= head + name + (a + b + c + d + e));
    lemma_holds_middle(head, name, a + b + c + d + e);
}

/// The other errors say what they are about.
pub proof fn law_other_error_messages(
    attempts: u32,
    source: String,
    what: &'static str,
)
    ensures
        (RsrpcError::ScanInProgress).message() == "Scanning already in progress"@,
        (RsrpcError::IpcBind { attempts, source }).message() == "ipc bind failed after "@ + decimal(
            attempts as nat,
        ) + " attempts: "@ + source@,
        (RsrpcError::InvalidConfig(what)).message() == "invalid transport config: "@ + what@,
{
}

/// A port is offered exactly when it has not been passed, is not beyond the
/// end, both ends included, and is not the one to skip.
pub proof fn law_port_range(scan: PortScan, port: u16)
    ensures
        scan.offers(port) <==> port >= scan.next && port <= scan.end && scan.skip != Some(port),
        scan.next <= scan.end && scan.skip is None ==> scan.offers(scan.end),
{
}

/// Two spellings of one path are the same: a slash at the end, and a dot as a
/// component, do not count. Paths that end in different names are not, nor are
/// a path from the root and one that is not.
#[verifier::rlimit(40)]
pub proof fn law_same_path(dir: Seq<char>, name: Seq<char>, other: Seq<char>)
    requires
        dir.len() > 0,
        without_char(name, '/'),
        without_char(other, '/'),
        name.len() > 0,
        other.len() > 0,
        name != "."@,
        other != "."@,
    ensures
        same_path(dir, dir),
        same_path(dir.push('/'), dir),
        same_path(dir.push('/') + "."@, dir),
        same_path(dir.push('/') + name, dir.push('/') + other) <==> name == other,
        same_path(dir.push('/') + name, dir.push('/').push('/') + name),
        dir[0] != '/' ==> !same_path(seq!['/'] + dir, dir),
        file_name(dir.push('/') + ".."@) is None,
{
    reveal_strlit(".");
    reveal_strlit("..");
    let none = Seq::<char>::empty();
    law_split(dir, '/');
    law_split(dir.push('/'), '/');
    lemma_split_at_last(dir, '/', none);
    assert(dir.push('/') + none =~= dir.push('/'));
    lemma_component(split(dir, '/'), none);
    lemma_split_at_last(dir, '/', "."@);
    lemma_component(split(dir, '/'), "."@);
    lemma_split_at_last(dir, '/', name);
    lemma_component(split(dir, '/'), name);
    lemma_split_at_last(dir, '/', other);
    lemma_component(split(dir, '/'), other);
    lemma_split_at_last(dir.push('/'), '/', name);
    lemma_component(split(dir.push('/'), '/'), name);
    lemma_split_at_last(dir, '/', ".."@);
    lemma_component(split(dir, '/'), ".."@);
    let parts = path_parts(dir);
    if parts.push(name) == parts.push(other) {
        assert(parts.push(name).last() == parts.push(other).last());
    }
    assert((seq!['/'] + dir)[0] == '/');
}

proof fn lemma_component(pieces: Seq<Seq<char>>, piece: Seq<char>)
    requires
        pieces.len() > 0,
    ensures
        components(pieces.push(piece), pieces.len() as int + 1) == if piece.len() > 0 && piece
            != "."@ {
            components(pieces, pieces.len() as int).push(piece)
        } else {
            components(pieces, pieces.len() as int)
        },
{
    lemma_components_front(pieces, piece, pieces.len() as int);
}

proof fn lemma_components_front(pieces: Seq<Seq<char>>, piece: Seq<char>, n: int)
    requires
        0 <= n <= pieces.len(),
    ensures
        components(pieces.push(piece), n) == components(pieces, n),
    decreases n,
{
    if n > 0 {
        lemma_components_front(pieces, piece, n - 1);
        assert(pieces.push(piece)[n - 1] == pieces[n - 1]);
    }
}

/// A new bridge has nobody listening and nothing to show: it greets its first
/// consumer with the identity alone, and drops no command as a repeat. It
/// keeps what it was configured with.
pub proof fn law_new_bridge(
    shared: Shared,
    config: BridgeConfig,
    user: RpcUser,
    startup: RpcUser,
    json_port: u16,
    msgpack_port: u16,
    state_path: Option<String>,
    cmd: CmdView,
    now_ms: u64,
    id: u64,
    protocol: BridgeProtocol,
)
    requires
        shared.fresh(config, user, startup, json_port, msgpack_port, state_path),
    ensures
        shared.router@.wf(),
        !shared.router@.floods(cmd, now_ms),
        shared.router@.outbox.len() == 0,
        shared.router@.window_ms == config.flood_window_ms,
        greeting(user@, shared.router@.cache, BridgeProtocol::Json) == seq![
            MessageView::Text(ready_json(user@)),
        ],
        !shared.consumers@.clients(protocol).contains(id),
        shared.consumers@.wf(),
        shared.user == user,
        shared.startup == startup,
        shared.json_port == json_port,
        shared.msgpack_port == msgpack_port,
        shared.ws_port == config.ws_port,
        opt_text(shared.ipc_path) == opt_text(config.ipc_path),
        shared.state_path == state_path,
        shared.app_version@ == config.app_version@,
        texts(shared.allowed_origins@) == texts(config.allowed_origins@),
        !shared.had_games,
{
    let greeted = greeting(user@, shared.router@.cache, BridgeProtocol::Json);
    assert(greeted =~= seq![MessageView::Text(ready_json(user@))]);
    let state = shared.router@;
    assert(exclusive(state)) by {
        assert forall|app: Seq<char>| state.handoff.suppressed(app) implies lookup(
            state.last_process,
            app,
        ) is None by {}
    }
}

/// A new scanner has not started, knows no process, and ignores exactly the
/// applications that it was told to ignore.
pub proof fn law_new_server(
    server: ProcessServer,
    ignored_ids: Seq<String>,
    platform: Platform,
    id: Seq<char>,
    pid: u64,
)
    requires
        server.fresh(ignored_ids, platform),
    ensures
        server.ignored_ids@.contains(id) <==> texts(ignored_ids).contains(id),
        server.detectables.platform == platform,
        server.enable_proc_events,
        !server.started && !server.scanning && !server.shutdown && !server.scan_dirty
            && !server.watcher_live,
        !server.detected_pids@.contains(pid),
        server.context.exclusions.names@.len() == 0,
        server.context.steam_libraries.dirs@.len() == 0,
{
    assert(server.ignored_ids@.contains(id) <==> texts(ignored_ids).contains(id));
}

/// The validators of an answer belong to no other.
pub proof fn law_validators(
    v: Validators,
    etag: Option<String>,
    content_hash: u64,
    trimmed_hash: u64,
    other_etag: Option<String>,
    other_content: u64,
    other_trimmed: u64,
)
    requires
        v.of(etag, content_hash, trimmed_hash),
        v.of(other_etag, other_content, other_trimmed),
    ensures
        etag == other_etag,
        content_hash == other_content,
        trimmed_hash == other_trimmed,
{
}

} // verus!
