//! What the process table tells about a process, out of the raw bytes of its
//! files.
use crate::json::opt_text;
use crate::names::joined;
use crate::table::texts;
use crate::text::{lemma_split_push, parse_u64, parsed, push_decimal, split, trim, trimmed};
use vstd::prelude::*;
use vstd::slice::slice_subrange;
use vstd::utf8::{decode_utf8, encode_utf8, encode_utf8_decode_utf8, valid_utf8};

verus! {

/// A process: its id, its executable path and its arguments.
pub struct Exec {
    pub pid: u64,
    pub path: String,
    pub arguments: Option<String>,
}

impl Default for Exec {
    fn default() -> (r: Self)
        ensures
            r.pid == 0,
            r.path@ == Seq::<char>::empty(),
            r.arguments is None,
    {
        Exec { pid: 0, path: String::new(), arguments: None }
    }
}

/// Buffers that are reused from process to process. `cmdline` holds what was
/// read of the command line.
pub struct ExecScratch {
    pub path: String,
    pub cmdline: Vec<u8>,
    pub args: String,
}

impl Default for ExecScratch {
    fn default() -> (r: Self)
        ensures
            r.path@ == Seq::<char>::empty(),
            r.cmdline@ == Seq::<u8>::empty(),
            r.args@ == Seq::<char>::empty(),
    {
        ExecScratch { path: String::new(), cmdline: Vec::new(), args: String::new() }
    }
}

/// How much of a command line counts.
pub const MAX_CMDLINE_BYTES: usize = 65536;

/// How much of an environment counts.
pub const MAX_ENVIRON_BYTES: usize = 262144;

/// The first `max` bytes.
pub open spec fn capped(bytes: Seq<u8>, max: int) -> Seq<u8> {
    if bytes.len() > max {
        bytes.take(max)
    } else {
        bytes
    }
}

/// Length of the longest valid UTF-8 text that `bytes` begins with, at most
/// `n`.
pub open spec fn text_end(bytes: Seq<u8>, n: int) -> int
    decreases n,
{
    if n <= 0 {
        0
    } else if valid_utf8(bytes.take(n)) {
        n
    } else {
        text_end(bytes, n - 1)
    }
}

/// The text of a command line: as much of it as counts and is valid.
pub open spec fn cmdline_text(cmdline: Seq<u8>) -> Seq<char> {
    let bytes = capped(cmdline, MAX_CMDLINE_BYTES as int);
    decode_utf8(bytes.take(text_end(bytes, bytes.len() as int)))
}

/// The pieces of a command line, the executable first.
pub open spec fn cmdline_parts(cmdline: Seq<u8>) -> Seq<Seq<char>> {
    split(cmdline_text(cmdline), '\0')
}

/// Arguments of a command line, one space between neighbours; none when that
/// is empty.
pub open spec fn cmdline_args(cmdline: Seq<u8>) -> Option<Seq<char>> {
    let args = joined(cmdline_parts(cmdline).skip(1));
    if args.len() == 0 {
        None
    } else {
        Some(args)
    }
}

/// Whether `exec` is what the command line of `pid` says.
pub open spec fn describes(exec: Exec, pid: u64, cmdline: Seq<u8>) -> bool {
    &&& exec.pid == pid
    &&& exec.path@ == cmdline_parts(cmdline)[0]
    &&& opt_text(exec.arguments) == cmdline_args(cmdline)
}

/// `std::str::from_utf8`: the text that the bytes spell, or how many of them
/// are valid. That number is the greatest for which the bytes before it are
/// valid.
#[verifier::external_body]
pub(crate) fn utf8_text(bytes: &[u8]) -> (r: Result<&str, usize>)
    ensures
        match r {
            Ok(text) => valid_utf8(bytes@) && encode_utf8(text@) == bytes@,
            Err(n) => {
                &&& !valid_utf8(bytes@)
                &&& n < bytes@.len()
                &&& valid_utf8(bytes@.take(n as int))
                &&& forall|k: int|
                    n < k <= bytes@.len() ==> !#[trigger] valid_utf8(bytes@.take(k))
            },
        },
{
    std::str::from_utf8(bytes).map_err(|e| e.valid_up_to())
}

proof fn lemma_text_end(bytes: Seq<u8>, n: int, from: int)
    requires
        0 <= n <= from <= bytes.len(),
        valid_utf8(bytes.take(n)),
        forall|k: int| n < k <= from ==> !#[trigger] valid_utf8(bytes.take(k)),
    ensures
        text_end(bytes, from) == n,
    decreases from,
{
    if from > n {
        lemma_text_end(bytes, n, from - 1);
    }
}

/// Path of the command line file of `pid`.
pub open spec fn cmdline_file(pid: u64) -> Seq<char> {
    "/proc/"@ + crate::text::decimal(pid as nat) + "/cmdline"@
}

/// Refill the path buffer with the command line file of `pid`.
pub fn cmdline_path(pid: u64, scratch: &mut ExecScratch)
    ensures
        final(scratch).path@ == cmdline_file(pid),
        final(scratch).cmdline == old(scratch).cmdline,
        final(scratch).args == old(scratch).args,
{
    scratch.path.clear();
    scratch.path.append("/proc/");
    assert(scratch.path@ == "/proc/"@);
    push_decimal(pid, &mut scratch.path);
    scratch.path.append("/cmdline");
}

proof fn lemma_joined_open(ps: Seq<Seq<char>>)
    ensures
        joined(ps.push(Seq::empty())) == if ps.len() == 0 {
            Seq::<char>::empty()
        } else {
            joined(ps).push(' ')
        },
{
    let qs = ps.push(Seq::empty());
    assert(qs.drop_last() == ps);
    if ps.len() > 0 {
        assert(joined(qs) == joined(ps).push(' ') + Seq::<char>::empty());
    }
}

proof fn lemma_joined_extend(ps: Seq<Seq<char>>, c: char)
    requires
        ps.len() > 0,
    ensures
        joined(ps.drop_last().push(ps.last().push(c))) == joined(ps).push(c),
{
    let qs = ps.drop_last().push(ps.last().push(c));
    assert(qs.drop_last() == ps.drop_last());
    assert(qs.last() == ps.last().push(c));
    if ps.len() == 1 {
        assert(qs[0] == ps[0].push(c));
    } else {
        assert(joined(qs) == joined(ps.drop_last()).push(' ') + ps.last().push(c));
        assert(joined(ps) == joined(ps.drop_last()).push(' ') + ps.last());
    }
}

/// Split the text of a command line: the first piece refills `path`, the
/// others refill `args` with one space between neighbours.
fn split_cmdline(text: &str, path: &mut String, args: &mut String)
    ensures
        final(path)@ == split(text@, '\0')[0],
        final(args)@ == joined(split(text@, '\0').skip(1)),
{
    path.clear();
    args.clear();
    let mut first = true;
    let mut second = false;
    proof {
        let none = text@.take(0);
        assert(none == Seq::<char>::empty());
        assert(split(none, '\0') =~= seq![Seq::<char>::empty()]);
        assert(split(none, '\0').skip(1) =~= Seq::<Seq<char>>::empty());
    }
    for c in it: text.chars()
        invariant
            it.seq() == text@,
            split(text@.take(it.index()), '\0').len() >= 1,
            first == (split(text@.take(it.index()), '\0').len() == 1),
            second == (split(text@.take(it.index()), '\0').len() == 2),
            path@ == split(text@.take(it.index()), '\0')[0],
            args@ == joined(split(text@.take(it.index()), '\0').skip(1)),
    {
        let ghost ps = split(text@.take(it.index()), '\0');
        proof {
            lemma_split_push(text@.take(it.index()), '\0', c);
            assert(text@.take(it.index() + 1) == text@.take(it.index()).push(c));
        }
        if c == '\0' {
            proof {
                lemma_joined_open(ps.skip(1));
                assert(ps.push(Seq::empty()).skip(1) =~= ps.skip(1).push(Seq::empty()));
            }
            if first {
                first = false;
                second = true;
            } else {
                args.push(' ');
                second = false;
            }
        } else if first {
            proof {
                let qs = ps.drop_last().push(ps.last().push(c));
                assert(qs.skip(1) =~= ps.skip(1));
            }
            path.push(c);
        } else {
            proof {
                lemma_joined_extend(ps.skip(1), c);
                let qs = ps.drop_last().push(ps.last().push(c));
                assert(qs.skip(1) =~= ps.skip(1).drop_last().push(ps.skip(1).last().push(c)));
                assert(qs[0] == ps[0]);
            }
            args.push(c);
        }
    }
    assert(text@.take(text@.len() as int) == text@);
}

/// Read a process out of the bytes of its command line in `scratch`, reusing
/// all buffers. Nothing is read of an empty command line (kernel threads,
/// zombies); only the first 64 KiB count, up to the last whole character.
pub fn read_exec_into(pid: u64, exec: &mut Exec, scratch: &mut ExecScratch) -> (r: bool)
    ensures
        r == (old(scratch).cmdline@.len() > 0),
        r ==> describes(*final(exec), pid, old(scratch).cmdline@),
        !r ==> *final(exec) == *old(exec) && *final(scratch) == *old(scratch),
        final(scratch).path == old(scratch).path,
        r ==> final(scratch).args@ == Seq::<char>::empty(),
{
    if scratch.cmdline.len() == 0 {
        return false;
    }
    let ghost raw = scratch.cmdline@;
    if scratch.cmdline.len() > MAX_CMDLINE_BYTES {
        scratch.cmdline.truncate(MAX_CMDLINE_BYTES);
    }
    let ghost bytes = capped(raw, MAX_CMDLINE_BYTES as int);
    assert(scratch.cmdline@ == bytes);
    match utf8_text(scratch.cmdline.as_slice()) {
        Ok(_) => {
            proof {
                assert(bytes.take(bytes.len() as int) == bytes);
                lemma_text_end(bytes, bytes.len() as int, bytes.len() as int);
            }
        },
        Err(n) => {
            proof {
                lemma_text_end(bytes, n as int, bytes.len() as int);
            }
            scratch.cmdline.truncate(n);
        },
    }
    let ghost valid = bytes.take(text_end(bytes, bytes.len() as int));
    assert(scratch.cmdline@ == valid);
    match utf8_text(scratch.cmdline.as_slice()) {
        Ok(text) => {
            proof {
                encode_utf8_decode_utf8(text@);
            }
            split_cmdline(text, &mut exec.path, &mut scratch.args);
        },
        Err(_) => {
            assert(false);
        },
    }
    exec.pid = pid;
    let mut old_args: Option<String> = None;
    std::mem::swap(&mut old_args, &mut exec.arguments);
    if !scratch.args.as_str().is_empty() {
        let mut args = String::new();
        std::mem::swap(&mut args, &mut scratch.args);
        exec.arguments = Some(args);
    } else {
        assert(scratch.args@ =~= Seq::<char>::empty());
    }
    if let Some(mut reused) = old_args {
        reused.clear();
        scratch.args = reused;
    }
    true
}

/// Read a process out of the bytes of its command line.
pub fn read_exec(pid: u64, cmdline: Vec<u8>) -> (r: Option<Exec>)
    ensures
        r is Some <==> cmdline@.len() > 0,
        r matches Some(exec) ==> describes(exec, pid, cmdline@),
{
    let mut exec = Exec::default();
    let mut scratch = ExecScratch::default();
    scratch.cmdline = cmdline;
    if read_exec_into(pid, &mut exec, &mut scratch) {
        Some(exec)
    } else {
        None
    }
}

/// An entry of the process table: its file name, and what was read of its
/// command line (nothing where that failed).
pub struct TableEntry {
    pub name: String,
    pub cmdline: Vec<u8>,
}

/// The processes that a table shows: the entries that are named by a number
/// and have a command line, in order.
pub open spec fn listed(entries: Seq<TableEntry>) -> Seq<(u64, Seq<u8>)>
    decreases entries.len(),
{
    if entries.len() == 0 {
        Seq::empty()
    } else {
        let before = listed(entries.drop_last());
        match parsed(entries.last().name@, u64::MAX as nat) {
            Some(pid) => if entries.last().cmdline@.len() > 0 {
                before.push((pid as u64, entries.last().cmdline@))
            } else {
                before
            },
            None => before,
        }
    }
}

/// How many slots a table takes up: one is set aside for every numbered
/// entry before it is read.
pub open spec fn slots_taken(entries: Seq<TableEntry>) -> nat
    decreases entries.len(),
{
    if entries.len() == 0 {
        0
    } else {
        let before = slots_taken(entries.drop_last());
        let needed = listed(entries.drop_last()).len() + 1;
        if parsed(entries.last().name@, u64::MAX as nat) is Some && needed > before {
            needed
        } else {
            before
        }
    }
}

/// Enumerate the processes of a table into caller-owned slots: slots are
/// refilled in place, the list only ever grows, and surplus slots keep what
/// they hold. The number of slots that were filled.
pub fn process_list_into(
    processes: &mut Vec<Exec>,
    entries: Vec<TableEntry>,
    scratch: &mut ExecScratch,
) -> (r: usize)
    requires
        old(processes)@.len() + entries@.len() <= usize::MAX,
    ensures
        r == listed(entries@).len(),
        forall|i: int|
            0 <= i < r ==> describes(
                #[trigger] final(processes)@[i],
                listed(entries@)[i].0,
                listed(entries@)[i].1,
            ),
        forall|i: int| r <= i < old(processes)@.len() ==> final(processes)@[i] == old(processes)@[i],
        final(processes)@.len() == if slots_taken(entries@) > old(processes)@.len() {
            slots_taken(entries@)
        } else {
            old(processes)@.len()
        },
{
    let ghost all = entries@;
    let ghost slots = processes@;
    let mut filled: usize = 0;
    assert(all.take(0) == Seq::<TableEntry>::empty());
    for entry in it: entries
        invariant
            it.seq() == all,
            slots.len() + all.len() <= usize::MAX,
            filled == listed(all.take(it.index())).len(),
            filled <= it.index(),
            filled <= processes@.len(),
            forall|i: int|
                0 <= i < filled ==> describes(
                    #[trigger] processes@[i],
                    listed(all.take(it.index()))[i].0,
                    listed(all.take(it.index()))[i].1,
                ),
            forall|i: int| filled <= i < slots.len() ==> processes@[i] == slots[i],
            processes@.len() == if slots_taken(all.take(it.index())) > slots.len() {
                slots_taken(all.take(it.index()))
            } else {
                slots.len()
            },
    {
        assert(all.take(it.index() + 1).drop_last() == all.take(it.index()));
        assert(all.take(it.index() + 1).last() == entry);
        if let Some(pid) = parse_u64(entry.name.as_str()) {
            if filled == processes.len() {
                processes.push(Exec::default());
            }
            scratch.cmdline = entry.cmdline;
            let slot = &mut processes[filled];
            if read_exec_into(pid, slot, scratch) {
                filled = filled + 1;
            }
        }
    }
    assert(all.take(all.len() as int) == all);
    filled
}

impl Exec {
    /// A process out of its argument vector, where the system hands one out:
    /// the arguments follow the executable, one space between neighbours.
    pub fn from_argv(pid: u64, path: String, argv: &Vec<String>) -> (r: Self)
        ensures
            r.pid == pid,
            r.path == path,
            opt_text(r.arguments) == if argv@.len() == 0 {
                None
            } else {
                Some(joined(texts(argv@).skip(1)))
            },
    {
        if argv.len() == 0 {
            return Exec { pid, path, arguments: None };
        }
        let ghost all = texts(argv@).skip(1);
        let mut args = String::new();
        let mut i: usize = 1;
        assert(all.take(0) == Seq::<Seq<char>>::empty());
        while i < argv.len()
            invariant
                1 <= i <= argv@.len(),
                all == texts(argv@).skip(1),
                args@ == joined(all.take(i - 1)),
            decreases argv@.len() - i,
        {
            let ghost next = all.take(i as int);
            assert(next.drop_last() == all.take(i - 1));
            assert(next.last() == argv@[i as int]@);
            if i > 1 {
                args.push(' ');
                assert(joined(next) == joined(all.take(i - 1)).push(' ') + next.last());
            } else {
                assert(joined(next) == next[0]);
                assert(args@ + next[0] == next[0]);
            }
            args.append(argv[i].as_str());
            i = i + 1;
        }
        assert(all.take(all.len() as int) == all);
        Exec { pid, path, arguments: Some(args) }
    }
}

/// Index of the first zero of `s`; its length without one.
pub open spec fn zero_at(s: Seq<u8>) -> int
    decreases s.len(),
{
    if s.len() == 0 {
        0
    } else if s[0] == 0 {
        0
    } else {
        1 + zero_at(s.drop_first())
    }
}

/// `SteamAppId=` in bytes.
pub open spec fn app_id_key() -> Seq<u8> {
    seq![83u8, 116, 101, 97, 109, 65, 112, 112, 73, 100, 61]
}

/// The application id that one entry of an environment gives: valid text
/// after the key, without padding, when there is any.
pub open spec fn entry_app_id(entry: Seq<u8>) -> Option<Seq<char>> {
    if entry.len() >= 11 && entry.take(11) == app_id_key() && valid_utf8(entry.skip(11)) && trimmed(
        decode_utf8(entry.skip(11)),
    ).len() > 0 {
        Some(trimmed(decode_utf8(entry.skip(11))))
    } else {
        None
    }
}

/// The first application id of an environment.
pub open spec fn environ_app_id(env: Seq<u8>) -> Option<Seq<char>>
    decreases env.len(),
{
    let z = zero_at(env);
    match entry_app_id(env.take(z)) {
        Some(id) => Some(id),
        None => if 0 <= z < env.len() {
            environ_app_id(env.skip(z + 1))
        } else {
            None
        },
    }
}

/// Whether `entry` begins with the key.
fn has_key(entry: &[u8]) -> (r: bool)
    ensures
        r == (entry@.len() >= 11 && entry@.take(11) == app_id_key()),
{
    if entry.len() < 11 {
        return false;
    }
    let r = entry[0] == 83 && entry[1] == 116 && entry[2] == 101 && entry[3] == 97 && entry[4] == 109
        && entry[5] == 65 && entry[6] == 112 && entry[7] == 112 && entry[8] == 73 && entry[9] == 100
        && entry[10] == 61;
    proof {
        let t = entry@.take(11);
        if r {
            assert(t =~= app_id_key());
        } else {
            assert(t[0] == entry@[0] && t[1] == entry@[1] && t[2] == entry@[2] && t[3] == entry@[3]
                && t[4] == entry@[4] && t[5] == entry@[5] && t[6] == entry@[6] && t[7] == entry@[7]
                && t[8] == entry@[8] && t[9] == entry@[9] && t[10] == entry@[10]);
        }
    }
    r
}

/// The application id that one entry of an environment gives.
fn entry_id(entry: &[u8]) -> (r: Option<String>)
    ensures
        opt_text(r) == entry_app_id(entry@),
{
    if !has_key(entry) {
        return None;
    }
    let rest = slice_subrange(entry, 11, entry.len());
    assert(rest@ == entry@.skip(11));
    match utf8_text(rest) {
        Ok(text) => {
            proof {
                encode_utf8_decode_utf8(text@);
            }
            let id = trim(text);
            if id.is_empty() {
                None
            } else {
                Some(id.to_owned())
            }
        },
        Err(_) => None,
    }
}

/// Read the launcher's application id out of the bytes of an environment;
/// only the first 256 KiB count.
pub fn read_steam_app_id(environ: &[u8]) -> (r: Option<String>)
    ensures
        opt_text(r) == environ_app_id(capped(environ@, MAX_ENVIRON_BYTES as int)),
{
    let env = if environ.len() > MAX_ENVIRON_BYTES {
        slice_subrange(environ, 0, MAX_ENVIRON_BYTES)
    } else {
        environ
    };
    let ghost all = env@;
    assert(all == capped(environ@, MAX_ENVIRON_BYTES as int));
    let mut a: usize = 0;
    assert(all.skip(0) == all);
    loop
        invariant
            a <= env@.len(),
            env@ == all,
            all == capped(environ@, MAX_ENVIRON_BYTES as int),
            environ_app_id(all.skip(a as int)) == environ_app_id(all),
        decreases env@.len() - a,
    {
        let mut b: usize = a;
        let ghost rest = all.skip(a as int);
        assert(rest.skip(0) == rest);
        while b < env.len() && env[b] != 0
            invariant
                a <= b <= env@.len(),
                env@ == all,
                rest == all.skip(a as int),
                zero_at(rest) == (b - a) + zero_at(rest.skip(b - a)),
            decreases env@.len() - b,
        {
            assert(rest.skip(b - a)[0] == env@[b as int]);
            assert(rest.skip(b - a).drop_first() == rest.skip(b - a + 1));
            b = b + 1;
        }
        proof {
            if b < env@.len() {
                assert(rest.skip(b - a)[0] == env@[b as int]);
            }
            assert(zero_at(rest) == b - a);
            assert(rest.take(b - a) == all.subrange(a as int, b as int));
        }
        let entry = slice_subrange(env, a, b);
        if let Some(id) = entry_id(entry) {
            return Some(id);
        }
        if b >= env.len() {
            return None;
        }
        assert(rest.skip(b - a + 1) == all.skip(b + 1));
        a = b + 1;
    }
}

} // verus!
