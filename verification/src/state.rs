//! Presence snapshots for external tooling.
//!
//! A snapshot lives in one of ten slots, `rsrpc-state-0` to `rsrpc-state-9`,
//! of a directory. A slot is free when it is missing, corrupt or stale.
use crate::json::{
    json_i64, json_i64_at, json_quote, json_quoted, json_str, json_str_at, json_text, json_text_at,
    json_u64, json_u64_at, opt_str, opt_text,
};
use crate::payload::CachedView;
use crate::replay::{CacheView, ReplayCache};
use crate::text::{
    at, chars_of, decimal, last_index, push_decimal, rfind, stands_at, text_of,
};
use crate::time::{clock, clock_millis, clock_secs, millis_of, Clock};
use vstd::prelude::*;

verus! {

/// How many slots there are.
pub const MAX_STATE_SLOTS: u8 = 10;

/// A slot or temporary file older than this many seconds is stale.
pub const STATE_STALE_SECS: u64 = 10;

/// Where a server listens.
pub struct StateServer {
    pub host: String,
    pub port: u16,
}

/// The servers that run.
pub struct StateServers {
    pub bridge: Option<StateServer>,
    pub msgpack: Option<StateServer>,
    pub websocket: Option<StateServer>,
    pub ipc: Option<String>,
}

impl Default for StateServers {
    fn default() -> (r: Self)
        ensures
            r == (StateServers { bridge: None, msgpack: None, websocket: None, ipc: None }),
    {
        StateServers { bridge: None, msgpack: None, websocket: None, ipc: None }
    }
}

/// One shown activity.
pub struct StateActivity {
    pub socket_id: String,
    pub name: Option<String>,
    pub application_id: Option<String>,
    pub pid: Option<u64>,
    pub start_time: Option<String>,
}

/// Model of a [`StateActivity`].
pub struct ActivityFacts {
    pub socket_id: Seq<char>,
    pub name: Option<Seq<char>>,
    pub application_id: Option<Seq<char>>,
    pub pid: Option<u64>,
    pub start_time: Option<Seq<char>>,
}

impl View for StateActivity {
    type V = ActivityFacts;

    open spec fn view(&self) -> ActivityFacts {
        ActivityFacts {
            socket_id: self.socket_id@,
            name: opt_text(self.name),
            application_id: opt_text(self.application_id),
            pid: self.pid,
            start_time: opt_text(self.start_time),
        }
    }
}

/// A snapshot of what is shown.
pub struct StateSnapshot {
    pub app_version: String,
    /// Milliseconds since the epoch.
    pub timestamp: i64,
    pub servers: StateServers,
    pub activities: Vec<StateActivity>,
}

impl StateSnapshot {
    /// A snapshot stamped with a clock reading.
    pub fn stamped(
        app_version: &str,
        servers: StateServers,
        activities: Vec<StateActivity>,
        now: Clock,
    ) -> (r: Self)
        ensures
            r.app_version@ == app_version@,
            r.timestamp == millis_of(now),
            r.servers == servers,
            r.activities == activities,
    {
        StateSnapshot {
            app_version: app_version.to_owned(),
            timestamp: clock_millis(now),
            servers,
            activities,
        }
    }

    /// A snapshot of this moment, under the version of the caller. The stamp
    /// is whatever the clock says, see [`StateSnapshot::stamped`].
    pub fn new(app_version: &str, servers: StateServers, activities: Vec<StateActivity>) -> (r: Self)
        ensures
            r.app_version@ == app_version@,
            r.timestamp >= 0,
            r.servers == servers,
            r.activities == activities,
    {
        StateSnapshot::stamped(app_version, servers, activities, clock())
    }

    /// The snapshot as JSON; nothing where its stamp cannot be read back. Its
    /// slot is not free to others before the stamp is stale, and free then.
    pub fn to_json(&self) -> (r: Option<String>)
        ensures
            r is Some <==> json_i64(snapshot_json(*self), "/timestamp"@) == Some(self.timestamp),
            r matches Some(text) ==> text@ == snapshot_json(*self) && forall|now_secs: u64|
                #![trigger slot_free(Some(text@), now_secs)]
                slot_free(Some(text@), now_secs) == stamp_free(Some(self.timestamp), now_secs),
    {
        let text = self.render();
        match json_i64_at(text.as_str(), "/timestamp") {
            Some(stamp) => if stamp == self.timestamp {
                Some(text)
            } else {
                None
            },
            None => None,
        }
    }

    /// Write the snapshot as JSON.
    fn render(&self) -> (r: String)
        ensures
            r@ == snapshot_json(*self),
    {
        let mut out = String::new();
        out.append("{\"appVersion\":");
        assert(out@ == "{\"appVersion\":"@);
        out.append(json_quote(self.app_version.as_str()).as_str());
        out.append(",\"timestamp\":");
        push_signed(self.timestamp, &mut out);
        out.append(",\"servers\":{");
        let mut fields: Vec<String> = Vec::new();
        push_server(&mut fields, "\"bridge\":", &self.servers.bridge);
        push_server(&mut fields, "\"msgpack\":", &self.servers.msgpack);
        push_server(&mut fields, "\"websocket\":", &self.servers.websocket);
        push_field_str(&mut fields, "\"ipc\":", &self.servers.ipc);
        assert(crate::table::texts(fields@) == server_fields(self.servers));
        push_joined(&fields, &mut out);
        out.append("},\"activities\":[");
        let mut items: Vec<String> = Vec::new();
        let mut i: usize = 0;
        assert(crate::table::texts(items@) == Seq::<Seq<char>>::empty());
        while i < self.activities.len()
            invariant
                i <= self.activities@.len(),
                crate::table::texts(items@) == self.activities@.take(i as int).map_values(
                    |a: StateActivity| activity_json(a@),
                ),
            decreases self.activities@.len() - i,
        {
            let ghost before = crate::table::texts(items@);
            let item = activity_text(&self.activities[i]);
            let ghost shown = item@;
            items.push(item);
            assert(crate::table::texts(items@) == before.push(shown));
            assert(self.activities@.take(i + 1) == self.activities@.take(i as int).push(
                self.activities@[i as int],
            ));
            i = i + 1;
        }
        assert(self.activities@.take(self.activities@.len() as int) == self.activities@);
        push_joined(&items, &mut out);
        out.append("]}");
        out
    }
}

/// A signed number in decimal.
pub open spec fn signed(n: int) -> Seq<char> {
    if n < 0 {
        "-"@ + decimal((-n) as nat)
    } else {
        decimal(n as nat)
    }
}

/// Append a signed number in decimal.
fn push_signed(n: i64, out: &mut String)
    ensures
        final(out)@ == old(out)@ + signed(n as int),
{
    if n < 0 {
        out.append("-");
        let m: u64 = (-(n as i128)) as u64;
        push_decimal(m, out);
        assert(out@ == old(out)@ + signed(n as int));
    } else {
        push_decimal(n as u64, out);
    }
}

/// The pieces of `fields` with commas between neighbours.
pub open spec fn comma_joined(fields: Seq<Seq<char>>) -> Seq<char>
    decreases fields.len(),
{
    if fields.len() == 0 {
        Seq::empty()
    } else if fields.len() == 1 {
        fields[0]
    } else {
        comma_joined(fields.drop_last()) + ","@ + fields.last()
    }
}

/// Append the pieces of `fields` with commas between neighbours.
fn push_joined(fields: &Vec<String>, out: &mut String)
    ensures
        final(out)@ == old(out)@ + comma_joined(crate::table::texts(fields@)),
{
    let ghost all = crate::table::texts(fields@);
    let ghost before = out@;
    let mut i: usize = 0;
    assert(comma_joined(all.take(0)) == Seq::<char>::empty());
    assert(before + Seq::<char>::empty() == before);
    while i < fields.len()
        invariant
            i <= fields@.len(),
            all == crate::table::texts(fields@),
            out@ == before + comma_joined(all.take(i as int)),
        decreases fields@.len() - i,
    {
        assert(all.take(i + 1).drop_last() == all.take(i as int));
        assert(all.take(i + 1).last() == all[i as int]);
        if i > 0 {
            out.append(",");
        }
        out.append(fields[i].as_str());
        assert(out@ == before + comma_joined(all.take(i + 1)));
        i = i + 1;
    }
    assert(all.take(all.len() as int) == all);
}

/// JSON field `key` with a text, where there is one.
pub open spec fn text_field(key: Seq<char>, value: Option<Seq<char>>) -> Seq<Seq<char>> {
    match value {
        Some(text) => seq![key + json_quoted(text)],
        None => Seq::empty(),
    }
}

/// JSON field `key` with a server, where there is one.
pub open spec fn server_field(key: Seq<char>, value: Option<StateServer>) -> Seq<Seq<char>> {
    match value {
        Some(server) => seq![
            key + "{\"host\":"@ + json_quoted(server.host@) + ",\"port\":"@ + decimal(
                server.port as nat,
            ) + "}"@,
        ],
        None => Seq::empty(),
    }
}

/// JSON fields of the servers that run.
pub open spec fn server_fields(servers: StateServers) -> Seq<Seq<char>> {
    server_field("\"bridge\":"@, servers.bridge) + server_field("\"msgpack\":"@, servers.msgpack)
        + server_field("\"websocket\":"@, servers.websocket) + text_field(
        "\"ipc\":"@,
        opt_text(servers.ipc),
    )
}

/// JSON fields of a shown activity.
pub open spec fn activity_fields(a: ActivityFacts) -> Seq<Seq<char>> {
    text_field("\"socketId\":"@, Some(a.socket_id)) + text_field("\"name\":"@, a.name)
        + text_field("\"application_id\":"@, a.application_id) + (match a.pid {
        Some(pid) => seq!["\"pid\":"@ + decimal(pid as nat)],
        None => Seq::empty(),
    }) + text_field("\"startTime\":"@, a.start_time)
}

/// JSON of a shown activity; unknown fields are left out.
pub open spec fn activity_json(a: ActivityFacts) -> Seq<char> {
    "{"@ + comma_joined(activity_fields(a)) + "}"@
}

/// JSON of a snapshot; servers that do not run are left out.
pub open spec fn snapshot_json(s: StateSnapshot) -> Seq<char> {
    "{\"appVersion\":"@ + json_quoted(s.app_version@) + ",\"timestamp\":"@ + signed(
        s.timestamp as int,
    ) + ",\"servers\":{"@ + comma_joined(server_fields(s.servers)) + "},\"activities\":["@
        + comma_joined(s.activities@.map_values(|a: StateActivity| activity_json(a@))) + "]}"@
}

/// Add the field `key` with a text, where there is one.
fn push_field_str(fields: &mut Vec<String>, key: &str, value: &Option<String>)
    ensures
        crate::table::texts(final(fields)@) == crate::table::texts(old(fields)@) + text_field(
            key@,
            opt_text(*value),
        ),
{
    let ghost before = crate::table::texts(fields@);
    if let Some(text) = value {
        let mut field = key.to_owned();
        field.append(json_quote(text.as_str()).as_str());
        fields.push(field);
        assert(crate::table::texts(fields@) == before + seq![field@]);
    } else {
        assert(before + Seq::<Seq<char>>::empty() == before);
    }
}

/// Add the field `key` with a server, where there is one.
fn push_server(fields: &mut Vec<String>, key: &str, value: &Option<StateServer>)
    ensures
        crate::table::texts(final(fields)@) == crate::table::texts(old(fields)@) + server_field(
            key@,
            *value,
        ),
{
    let ghost before = crate::table::texts(fields@);
    if let Some(server) = value {
        let mut field = key.to_owned();
        field.append("{\"host\":");
        field.append(json_quote(server.host.as_str()).as_str());
        field.append(",\"port\":");
        push_decimal(server.port as u64, &mut field);
        field.append("}");
        fields.push(field);
        assert(crate::table::texts(fields@) == before + seq![field@]);
    } else {
        assert(before + Seq::<Seq<char>>::empty() == before);
    }
}

/// Write the JSON of a shown activity.
fn activity_text(a: &StateActivity) -> (r: String)
    ensures
        r@ == activity_json(a@),
{
    let mut fields: Vec<String> = Vec::new();
    let mut first = "\"socketId\":".to_owned();
    first.append(json_quote(a.socket_id.as_str()).as_str());
    fields.push(first);
    assert(crate::table::texts(fields@) == text_field("\"socketId\":"@, Some(a.socket_id@)));
    push_field_str(&mut fields, "\"name\":", &a.name);
    push_field_str(&mut fields, "\"application_id\":", &a.application_id);
    let ghost before = crate::table::texts(fields@);
    if let Some(pid) = a.pid {
        let mut field = "\"pid\":".to_owned();
        push_decimal(pid, &mut field);
        fields.push(field);
        assert(crate::table::texts(fields@) == before + seq![field@]);
    } else {
        assert(before + Seq::<Seq<char>>::empty() == before);
    }
    push_field_str(&mut fields, "\"startTime\":", &a.start_time);
    assert(crate::table::texts(fields@) == activity_fields(a@));
    let mut out = "{".to_owned();
    push_joined(&fields, &mut out);
    out.append("}");
    out
}

/// Facts about the card of `socket_id` that the payload `json` tells.
pub open spec fn card_facts(socket_id: Seq<char>, json: Seq<char>) -> ActivityFacts {
    ActivityFacts {
        socket_id,
        name: json_str(json, "/activity/name"@),
        application_id: json_str(json, "/activity/application_id"@),
        pid: json_u64(json, "/pid"@),
        start_time: start_text(
            json_str(json, "/activity/timestamps/start"@),
            json_text(json, "/activity/timestamps/start"@),
        ),
    }
}

/// A start time as text: the text itself, or the rendering of anything else.
pub open spec fn start_text(text: Option<Seq<char>>, rendered: Option<Seq<char>>) -> Option<
    Seq<char>,
> {
    if text is Some {
        text
    } else {
        rendered
    }
}

/// A start time as text.
pub fn start_time_text(text: Option<String>, rendered: Option<String>) -> (r: Option<String>)
    ensures
        opt_text(r) == start_text(opt_text(text), opt_text(rendered)),
{
    if text.is_some() {
        text
    } else {
        rendered
    }
}

/// What the cards of `cache` tell, oldest first.
pub open spec fn cache_facts(cache: CacheView) -> Seq<ActivityFacts> {
    cache.map_values(
        |card: (Seq<char>, (CachedView, u64))| card_facts(card.0, card.1.0.json),
    )
}

/// Flatten the replay cache into shown activities. A payload that cannot be
/// read contributes its publisher only.
pub fn state_activities(cache: &ReplayCache) -> (r: Vec<StateActivity>)
    ensures
        r@.map_values(|a: StateActivity| a@) == cache_facts(cache@),
{
    let mut out: Vec<StateActivity> = Vec::new();
    let mut i: usize = 0;
    assert(out@.map_values(|a: StateActivity| a@) == Seq::<ActivityFacts>::empty());
    while i < cache.entries.len()
        invariant
            i <= cache.entries@.len(),
            out@.map_values(|a: StateActivity| a@) == cache_facts(cache@.take(i as int)),
        decreases cache.entries@.len() - i,
    {
        let ghost before = out@.map_values(|a: StateActivity| a@);
        let id = &cache.entries[i].0;
        let json = cache.entries[i].1.0.json.as_str();
        let start = "/activity/timestamps/start";
        let activity = StateActivity {
            socket_id: id.clone(),
            name: json_str_at(json, "/activity/name"),
            application_id: json_str_at(json, "/activity/application_id"),
            pid: json_u64_at(json, "/pid"),
            start_time: start_time_text(json_str_at(json, start), json_text_at(json, start)),
        };
        let ghost facts = activity@;
        out.push(activity);
        assert(out@.map_values(|a: StateActivity| a@) == before.push(facts));
        assert(cache@.take(i + 1) == cache@.take(i as int).push(cache@[i as int]));
        i = i + 1;
    }
    assert(cache@.take(cache@.len() as int) == cache@);
    out
}

/// Current time in seconds since the epoch, whatever the clock says.
pub fn now_secs() -> u64 {
    clock_secs(clock())
}

/// Age in seconds of a stamp in milliseconds. A stamp before the epoch
/// counts as the epoch, one in the future as now.
pub open spec fn age_secs(timestamp_ms: i64, now_secs: u64) -> int {
    let stamp = if timestamp_ms < 0 {
        0
    } else {
        timestamp_ms as int / 1000
    };
    if now_secs >= stamp {
        now_secs - stamp
    } else {
        0
    }
}

/// Whether a slot with this stamp may be taken: no stamp, or a stale one.
pub open spec fn stamp_free(timestamp_ms: Option<i64>, now_secs: u64) -> bool {
    match timestamp_ms {
        Some(ms) => age_secs(ms, now_secs) > STATE_STALE_SECS,
        None => true,
    }
}

/// Whether a slot with this stamp may be taken.
pub fn stamp_reusable(timestamp_ms: Option<i64>, now_secs: u64) -> (r: bool)
    ensures
        r == stamp_free(timestamp_ms, now_secs),
{
    match timestamp_ms {
        Some(ms) => {
            let stamp: u64 = if ms < 0 {
                0
            } else {
                (ms / 1000) as u64
            };
            now_secs >= stamp && now_secs - stamp > STATE_STALE_SECS
        },
        None => true,
    }
}

/// Whether a slot with these contents may be taken: missing or unreadable
/// contents, contents without a stamp, or a stale stamp.
pub open spec fn slot_free(content: Option<Seq<char>>, now_secs: u64) -> bool {
    match content {
        Some(text) => stamp_free(json_i64(text, "/timestamp"@), now_secs),
        None => true,
    }
}

/// Whether a slot with these contents may be taken.
pub fn slot_reusable(content: Option<&str>, now_secs: u64) -> (r: bool)
    ensures
        r == slot_free(opt_str(content), now_secs),
{
    match content {
        Some(text) => stamp_reusable(json_i64_at(text, "/timestamp"), now_secs),
        None => true,
    }
}

/// `name` inside the directory `dir`.
pub open spec fn inside(dir: Seq<char>, name: Seq<char>) -> Seq<char> {
    if dir.len() == 0 || dir.last() == '/' {
        dir + name
    } else {
        dir.push('/') + name
    }
}

/// `name` inside the directory `dir`.
pub fn path_inside(dir: &str, name: &str) -> (r: String)
    ensures
        r@ == inside(dir@, name@),
{
    let v = chars_of(dir);
    let mut out = dir.to_owned();
    if v.len() > 0 && v[v.len() - 1] != '/' {
        out.push('/');
    }
    out.append(name);
    out
}

/// Name of a slot.
pub open spec fn slot_name(index: nat) -> Seq<char> {
    "rsrpc-state-"@ + decimal(index)
}

/// Contents of slot `index`, as far as they were read.
pub open spec fn slot_content(contents: Seq<Option<String>>, index: int) -> Option<Seq<char>> {
    if 0 <= index < contents.len() {
        opt_text(contents[index])
    } else {
        None
    }
}

/// Pick a slot of `dir`: the first that may be taken, where `contents` holds
/// what was read of each slot. Nothing when other live daemons own them all.
pub fn select_slot(dir: &str, contents: &Vec<Option<String>>, now_secs: u64) -> (r: Option<String>)
    ensures
        match r {
            Some(path) => exists|i: int|
                {
                    &&& 0 <= i < MAX_STATE_SLOTS
                    &&& path@ == inside(dir@, slot_name(i as nat))
                    &&& #[trigger] slot_free(slot_content(contents@, i), now_secs)
                    &&& forall|j: int|
                        0 <= j < i ==> !#[trigger] slot_free(slot_content(contents@, j), now_secs)
                },
            None => forall|j: int|
                0 <= j < MAX_STATE_SLOTS ==> !#[trigger] slot_free(
                    slot_content(contents@, j),
                    now_secs,
                ),
        },
{
    let mut index: usize = 0;
    while index < 10
        invariant
            index <= 10,
            forall|j: int|
                0 <= j < index ==> !#[trigger] slot_free(slot_content(contents@, j), now_secs),
        decreases 10 - index,
    {
        let content = if index < contents.len() {
            match &contents[index] {
                Some(text) => Some(text.as_str()),
                None => None,
            }
        } else {
            None
        };
        assert(opt_str(content) == slot_content(contents@, index as int));
        if slot_reusable(content, now_secs) {
            let mut name = "rsrpc-state-".to_owned();
            push_decimal(index as u64, &mut name);
            return Some(path_inside(dir, name.as_str()));
        }
        index = index + 1;
    }
    None
}

/// A temporary file of a snapshot writer: our prefix, and an extension that
/// begins with `tmp-`.
pub open spec fn our_temp(name: Seq<char>) -> bool {
    at(name, 0, "rsrpc-state-"@) && rfind(name, '.') >= 0 && at(name, rfind(name, '.') + 1, "tmp-"@)
}

/// A temporary file that its writer left behind: ours, and older than the
/// staleness limit.
pub open spec fn abandoned(name: Seq<char>, mtime_secs: Option<u64>, now_secs: u64) -> bool {
    our_temp(name) && (mtime_secs matches Some(mtime) && now_secs > mtime && now_secs - mtime
        > STATE_STALE_SECS)
}

/// Whether a directory entry is to be swept before a slot is picked. Files
/// of other programs never are.
pub fn is_stale_tmp(name: &str, mtime_secs: Option<u64>, now_secs: u64) -> (r: bool)
    ensures
        r == abandoned(name@, mtime_secs, now_secs),
{
    let v = chars_of(name);
    let ours = chars_of("rsrpc-state-");
    let tmp = chars_of("tmp-");
    assert(v@.take(v@.len() as int) == name@);
    if !stands_at(&v, 0, &ours) {
        return false;
    }
    let len: usize = v.len();
    match last_index(&v, len, '.') {
        Some(dot) => if !stands_at(&v, dot + 1, &tmp) {
            return false;
        },
        None => {
            return false;
        },
    }
    match mtime_secs {
        Some(mtime) => now_secs > mtime && now_secs - mtime > STATE_STALE_SECS,
        None => false,
    }
}

/// Temporary file beside the slot `path` for one write of process `pid`.
pub open spec fn temp_path(path: Seq<char>, pid: u64, serial: u64) -> Seq<char> {
    let slash = rfind(path, '/');
    let dot = rfind(path, '.');
    (if dot > slash + 1 {
        path.take(dot)
    } else {
        path
    }) + ".tmp-"@ + decimal(pid as nat) + "-"@ + decimal(serial as nat)
}

/// Temporary file beside the slot `path` for one write of process `pid`: the
/// serial number makes every write's file its own.
pub fn snapshot_tmp(path: &str, pid: u64, serial: u64) -> (r: String)
    ensures
        r@ == temp_path(path@, pid, serial),
{
    let v = chars_of(path);
    let len: usize = v.len();
    assert(v@.take(v@.len() as int) == path@);
    let base: usize = match last_index(&v, len, '/') {
        Some(slash) => slash + 1,
        None => 0,
    };
    let end: usize = match last_index(&v, len, '.') {
        Some(dot) => if dot > base {
            dot
        } else {
            len
        },
        None => len,
    };
    let mut out = text_of(&v, 0, end);
    assert(v@.subrange(0, end as int) == v@.take(end as int));
    out.append(".tmp-");
    push_decimal(pid, &mut out);
    out.append("-");
    push_decimal(serial, &mut out);
    out
}

/// A slot that was just stamped is not taken by another daemon, and one that
/// is not stamped again is free once it is stale.
pub proof fn law_slot_ownership(timestamp_ms: i64, now_secs: u64)
    requires
        timestamp_ms >= 0,
    ensures
        now_secs <= timestamp_ms as int / 1000 + STATE_STALE_SECS ==> !stamp_free(
            Some(timestamp_ms),
            now_secs,
        ),
        now_secs > timestamp_ms as int / 1000 + STATE_STALE_SECS ==> stamp_free(
            Some(timestamp_ms),
            now_secs,
        ),
{
}

} // verus!
