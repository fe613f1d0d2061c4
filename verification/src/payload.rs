//! Game commands and the dual-encoded payloads of the bridge.
use crate::json::{
    json_i64, json_i64_at, json_quote, json_quoted, json_replace_i64, json_replaced_i64, json_str,
    json_str_at, json_text, json_text_at, json_to_msgpack, json_u64, json_u64_at, msgpack_of,
    opt_text,
};
use crate::text::{chars_of, decimal, decimal_text, push_decimal, same, text_of};
use std::sync::Arc;
use vstd::prelude::*;

verus! {

/// `Arc::clone`: another handle on the same value.
#[verifier::external_body]
pub(crate) fn share<T>(a: &Arc<T>) -> (r: Arc<T>)
    ensures
        r == *a,
{
    Arc::clone(a)
}

/// The rich-presence activity of a game command. `json` is its compact JSON
/// rendering, the form in which it is published and compared.
pub struct Activity {
    pub application_id: Option<String>,
    pub name: Option<String>,
    pub json: String,
}

/// Arguments of a game command.
pub struct ActivityArgs {
    pub pid: Option<u64>,
    pub activity: Option<Activity>,
}

/// A command that a game sent. `raw` is its JSON rendering, the form in
/// which events other than activities are forwarded.
pub struct ActivityCmd {
    pub cmd: String,
    pub application_id: Option<String>,
    pub args: Option<ActivityArgs>,
    /// JSON of the nonce, `null` without one.
    pub nonce: String,
    pub raw: String,
}

/// Model of an [`Activity`].
pub struct ActivityView {
    pub application_id: Option<Seq<char>>,
    pub name: Option<Seq<char>>,
    pub json: Seq<char>,
}

impl View for Activity {
    type V = ActivityView;

    open spec fn view(&self) -> ActivityView {
        ActivityView {
            application_id: opt_text(self.application_id),
            name: opt_text(self.name),
            json: self.json@,
        }
    }
}

/// Model of an [`ActivityCmd`]: `args` is the pid and the activity.
pub struct CmdView {
    pub cmd: Seq<char>,
    pub application_id: Option<Seq<char>>,
    pub args: Option<(Option<u64>, Option<ActivityView>)>,
    pub nonce: Seq<char>,
    pub raw: Seq<char>,
}

impl View for ActivityCmd {
    type V = CmdView;

    open spec fn view(&self) -> CmdView {
        CmdView {
            cmd: self.cmd@,
            application_id: opt_text(self.application_id),
            args: match self.args {
                Some(args) => Some(
                    (
                        args.pid,
                        match args.activity {
                            Some(activity) => Some(activity@),
                            None => None,
                        },
                    ),
                ),
                None => None,
            },
            nonce: self.nonce@,
            raw: self.raw@,
        }
    }
}

impl CmdView {
    /// The publishing process; `0` when the command names none.
    pub open spec fn pid(self) -> u64 {
        match self.args {
            Some((Some(pid), _)) => pid,
            _ => 0,
        }
    }

    /// The activity that the command carries.
    pub open spec fn activity(self) -> Option<ActivityView> {
        match self.args {
            Some((_, activity)) => activity,
            None => None,
        }
    }

    /// Rendering of the activity, by which publishes are compared.
    pub open spec fn fingerprint(self) -> Option<Seq<char>> {
        match self.activity() {
            Some(activity) => Some(activity.json),
            None => None,
        }
    }
}

/// The clear of what `pid` published for an application.
pub open spec fn clear_cmd(application_id: Option<Seq<char>>, pid: u64) -> CmdView {
    CmdView {
        cmd: "SET_ACTIVITY"@,
        application_id,
        args: Some((Some(pid), None)),
        nonce: "null"@,
        raw: Seq::empty(),
    }
}

/// The JSON object `json` with the field `application_id` at its end, where it
/// prevails over an earlier one.
pub open spec fn with_app(json: Seq<char>, app: Seq<char>) -> Seq<char> {
    if json.len() < 2 {
        json
    } else {
        json.drop_last() + (if json.len() == 2 {
            ""@
        } else {
            ","@
        }) + "\"application_id\":"@ + json_quoted(app) + "}"@
    }
}

/// An activity that names its application.
pub open spec fn stamped_activity(activity: ActivityView, app: Seq<char>) -> ActivityView {
    if activity.application_id is Some {
        activity
    } else {
        ActivityView {
            application_id: Some(app),
            json: with_app(activity.json, app),
            ..activity
        }
    }
}

/// A command that names its application, and whose activity does.
pub open spec fn stamped(cmd: CmdView, fallback: Option<Seq<char>>) -> CmdView {
    let application_id = if cmd.application_id is Some {
        cmd.application_id
    } else {
        fallback
    };
    CmdView {
        application_id,
        args: match cmd.args {
            Some((pid, Some(activity))) => Some(
                (
                    pid,
                    Some(
                        match application_id {
                            Some(app) => stamped_activity(activity, app),
                            None => activity,
                        },
                    ),
                ),
            ),
            other => other,
        },
        ..cmd
    }
}

impl Activity {
    /// Name the application, unless the activity names one itself.
    pub fn stamp(self, app: &str) -> (r: Self)
        ensures
            r@ == stamped_activity(self@, app@),
    {
        if self.application_id.is_some() {
            return self;
        }
        let v = chars_of(self.json.as_str());
        let len: usize = v.len();
        let json = if len < 2 {
            self.json
        } else {
            let mut out = text_of(&v, 0, len - 1);
            assert(out@ == v@.drop_last());
            out.append(
                if len == 2 {
                    ""
                } else {
                    ","
                },
            );
            out.append("\"application_id\":");
            out.append(json_quote(app).as_str());
            out.append("}");
            out
        };
        Activity { application_id: Some(app.to_owned()), name: self.name, json }
    }
}

/// Whether the value at `pointer` is there and is not null.
pub open spec fn json_present(doc: Seq<char>, pointer: Seq<char>) -> bool {
    json_text(doc, pointer) is Some && json_text(doc, pointer) != Some("null"@)
}

/// The text under `pointer`, or its absence; nothing for any other value.
pub open spec fn text_field(doc: Seq<char>, pointer: Seq<char>) -> Option<Option<Seq<char>>> {
    if !json_present(doc, pointer) {
        Some(None)
    } else {
        match json_str(doc, pointer) {
            Some(text) => Some(Some(text)),
            None => None,
        }
    }
}

/// The number under `pointer`, or its absence; nothing for any other value.
pub open spec fn number_field(doc: Seq<char>, pointer: Seq<char>) -> Option<Option<u64>> {
    if !json_present(doc, pointer) {
        Some(None)
    } else {
        match json_u64(doc, pointer) {
            Some(n) => Some(Some(n)),
            None => None,
        }
    }
}

/// The JSON of the object under `pointer`, or its absence; nothing for any
/// other value.
pub open spec fn object_field(doc: Seq<char>, pointer: Seq<char>) -> Option<Option<Seq<char>>> {
    if !json_present(doc, pointer) {
        Some(None)
    } else {
        let json = json_text(doc, pointer)->0;
        if json.len() > 0 && json[0] == '{' {
            Some(Some(json))
        } else {
            None
        }
    }
}

/// The activity of the command `doc`, or its absence; nothing when it is
/// malformed.
pub open spec fn parsed_activity(doc: Seq<char>) -> Option<Option<ActivityView>> {
    match object_field(doc, "/args/activity"@) {
        Some(Some(json)) => match (
            text_field(doc, "/args/activity/application_id"@),
            text_field(doc, "/args/activity/name"@),
        ) {
            (Some(application_id), Some(name)) => Some(
                Some(ActivityView { application_id, name, json }),
            ),
            _ => None,
        },
        Some(None) => Some(None),
        None => None,
    }
}

/// The arguments of the command `doc`, or their absence; nothing when they
/// are malformed.
pub open spec fn parsed_args(doc: Seq<char>) -> Option<Option<(Option<u64>, Option<ActivityView>)>> {
    match object_field(doc, "/args"@) {
        Some(Some(_)) => match (number_field(doc, "/args/pid"@), parsed_activity(doc)) {
            (Some(pid), Some(activity)) => Some(Some((pid, activity))),
            _ => None,
        },
        Some(None) => Some(None),
        None => None,
    }
}

/// The command that the JSON document `doc` spells: an object with a text
/// under `cmd`, whose other fields have their types where they are there.
pub open spec fn parsed_cmd(doc: Seq<char>) -> Option<CmdView> {
    match (json_str(doc, "/cmd"@), text_field(doc, "/application_id"@), parsed_args(doc)) {
        (Some(cmd), Some(application_id), Some(args)) => Some(
            CmdView {
                cmd,
                application_id,
                args,
                nonce: match json_text(doc, "/nonce"@) {
                    Some(nonce) => nonce,
                    None => "null"@,
                },
                raw: doc,
            },
        ),
        _ => None,
    }
}

/// The value at `pointer`, unless it is missing or null.
fn json_present_at(doc: &str, pointer: &str) -> (r: Option<String>)
    ensures
        r is Some == json_present(doc@, pointer@),
        r is Some ==> opt_text(r) == json_text(doc@, pointer@),
{
    match json_text_at(doc, pointer) {
        Some(text) => if same(text.as_str(), "null") {
            None
        } else {
            Some(text)
        },
        None => None,
    }
}

/// Model of an optional field.
pub open spec fn opt_field(field: Option<Option<String>>) -> Option<Option<Seq<char>>> {
    match field {
        Some(text) => Some(opt_text(text)),
        None => None,
    }
}

/// Read the text under `pointer`.
fn text_field_at(doc: &str, pointer: &str) -> (r: Option<Option<String>>)
    ensures
        opt_field(r) == text_field(doc@, pointer@),
{
    if json_present_at(doc, pointer).is_none() {
        return Some(None);
    }
    match json_str_at(doc, pointer) {
        Some(text) => Some(Some(text)),
        None => None,
    }
}

/// Read the number under `pointer`.
fn number_field_at(doc: &str, pointer: &str) -> (r: Option<Option<u64>>)
    ensures
        r == number_field(doc@, pointer@),
{
    if json_present_at(doc, pointer).is_none() {
        return Some(None);
    }
    match json_u64_at(doc, pointer) {
        Some(n) => Some(Some(n)),
        None => None,
    }
}

/// Read the JSON of the object under `pointer`.
fn object_field_at(doc: &str, pointer: &str) -> (r: Option<Option<String>>)
    ensures
        opt_field(r) == object_field(doc@, pointer@),
{
    match json_present_at(doc, pointer) {
        Some(json) => {
            let v = chars_of(json.as_str());
            if v.len() > 0 && v[0] == '{' {
                Some(Some(json))
            } else {
                None
            }
        },
        None => Some(None),
    }
}

/// Model of the activity that was read.
pub open spec fn opt_activity(activity: Option<Option<Activity>>) -> Option<Option<ActivityView>> {
    match activity {
        Some(Some(activity)) => Some(Some(activity@)),
        Some(None) => Some(None),
        None => None,
    }
}

/// Read the activity of a command.
fn read_activity(doc: &str) -> (r: Option<Option<Activity>>)
    ensures
        opt_activity(r) == parsed_activity(doc@),
{
    match object_field_at(doc, "/args/activity") {
        Some(Some(json)) => {
            let application_id = match text_field_at(doc, "/args/activity/application_id") {
                Some(application_id) => application_id,
                None => {
                    return None;
                },
            };
            let name = match text_field_at(doc, "/args/activity/name") {
                Some(name) => name,
                None => {
                    return None;
                },
            };
            Some(Some(Activity { application_id, name, json }))
        },
        Some(None) => Some(None),
        None => None,
    }
}

/// Stamps below this many count seconds, others milliseconds.
pub const FIRST_MILLIS: i64 = 10_000_000_000;

/// A time stamp in milliseconds: seconds are scaled, down to the lowest
/// number at most.
pub open spec fn in_millis(stamp: i64) -> int {
    if stamp >= FIRST_MILLIS {
        stamp as int
    } else if stamp * 1000 < i64::MIN {
        i64::MIN as int
    } else {
        stamp * 1000
    }
}

/// Bring a time stamp to milliseconds.
pub fn to_millis(stamp: i64) -> (r: i64)
    ensures
        r == in_millis(stamp),
{
    if stamp >= FIRST_MILLIS {
        stamp
    } else {
        let scaled: i128 = stamp as i128 * 1000;
        if scaled < -0x8000_0000_0000_0000 {
            i64::MIN
        } else {
            scaled as i64
        }
    }
}

/// The JSON document `json` with the time stamp at `pointer` in milliseconds.
pub open spec fn stamp_fixed(json: Seq<char>, pointer: Seq<char>) -> Seq<char> {
    match json_i64(json, pointer) {
        Some(stamp) => match json_replaced_i64(json, pointer, in_millis(stamp) as i64) {
            Some(fixed) => fixed,
            None => json,
        },
        None => json,
    }
}

/// The activity `json` with its time stamps in milliseconds.
pub open spec fn timestamps_fixed(json: Seq<char>) -> Seq<char> {
    stamp_fixed(stamp_fixed(json, "/timestamps/start"@), "/timestamps/end"@)
}

/// A command whose activity has its time stamps in milliseconds.
pub open spec fn fixed_cmd(cmd: CmdView) -> CmdView {
    CmdView {
        args: match cmd.args {
            Some((pid, Some(activity))) => Some(
                (
                    pid,
                    Some(ActivityView { json: timestamps_fixed(activity.json), ..activity }),
                ),
            ),
            other => other,
        },
        ..cmd
    }
}

/// Bring the time stamp at `pointer` of `json` to milliseconds.
fn fix_stamp(json: String, pointer: &str) -> (r: String)
    ensures
        r@ == stamp_fixed(json@, pointer@),
{
    match json_i64_at(json.as_str(), pointer) {
        Some(stamp) => match json_replace_i64(json.as_str(), pointer, to_millis(stamp)) {
            Some(fixed) => fixed,
            None => json,
        },
        None => json,
    }
}

impl Clone for Activity {
    fn clone(&self) -> (r: Self)
        ensures
            r@ == self@,
    {
        Activity {
            application_id: match &self.application_id {
                Some(app) => Some(app.clone()),
                None => None,
            },
            name: match &self.name {
                Some(name) => Some(name.clone()),
                None => None,
            },
            json: self.json.clone(),
        }
    }
}

impl Clone for ActivityCmd {
    fn clone(&self) -> (r: Self)
        ensures
            r@ == self@,
    {
        ActivityCmd {
            cmd: self.cmd.clone(),
            application_id: match &self.application_id {
                Some(app) => Some(app.clone()),
                None => None,
            },
            args: match &self.args {
                Some(args) => Some(
                    ActivityArgs {
                        pid: args.pid,
                        activity: match &args.activity {
                            Some(activity) => Some(activity.clone()),
                            None => None,
                        },
                    },
                ),
                None => None,
            },
            nonce: self.nonce.clone(),
            raw: self.raw.clone(),
        }
    }
}

impl ActivityCmd {
    /// Bring the time stamps of the activity to milliseconds.
    pub fn fix_timestamps(&mut self)
        ensures
            final(self)@ == fixed_cmd(old(self)@),
    {
        let mut args: Option<ActivityArgs> = None;
        std::mem::swap(&mut args, &mut self.args);
        if let Some(given) = args {
            let activity = match given.activity {
                Some(activity) => {
                    let begun = fix_stamp(activity.json, "/timestamps/start");
                    Some(
                        Activity {
                            application_id: activity.application_id,
                            name: activity.name,
                            json: fix_stamp(begun, "/timestamps/end"),
                        },
                    )
                },
                None => None,
            };
            self.args = Some(ActivityArgs { pid: given.pid, activity });
        }
    }
}

impl ActivityCmd {
    /// A command without contents.
    pub fn empty() -> (r: Self)
        ensures
            r@ == (CmdView {
                cmd: Seq::empty(),
                application_id: None,
                args: None,
                nonce: "null"@,
                raw: Seq::empty(),
            }),
    {
        ActivityCmd {
            cmd: String::new(),
            application_id: None,
            args: None,
            nonce: "null".to_owned(),
            raw: String::new(),
        }
    }

    /// Read a command out of JSON text.
    pub fn from_json(doc: &str) -> (r: Option<Self>)
        ensures
            match r {
                Some(cmd) => parsed_cmd(doc@) == Some(cmd@),
                None => parsed_cmd(doc@) is None,
            },
    {
        let cmd = match json_str_at(doc, "/cmd") {
            Some(cmd) => cmd,
            None => {
                return None;
            },
        };
        let application_id = match text_field_at(doc, "/application_id") {
            Some(application_id) => application_id,
            None => {
                return None;
            },
        };
        let args = match object_field_at(doc, "/args") {
            Some(Some(_)) => {
                let pid = match number_field_at(doc, "/args/pid") {
                    Some(pid) => pid,
                    None => {
                        return None;
                    },
                };
                match read_activity(doc) {
                    Some(activity) => Some(ActivityArgs { pid, activity }),
                    None => {
                        return None;
                    },
                }
            },
            Some(None) => None,
            None => {
                return None;
            },
        };
        Some(
            ActivityCmd {
                cmd,
                application_id,
                args,
                nonce: match json_text_at(doc, "/nonce") {
                    Some(nonce) => nonce,
                    None => "null".to_owned(),
                },
                raw: doc.to_owned(),
            },
        )
    }

    /// The clear of what `pid` published for an application.
    pub fn clear_for(application_id: Option<String>, pid: u64) -> (r: Self)
        ensures
            r@ == clear_cmd(opt_text(application_id), pid),
    {
        ActivityCmd {
            cmd: "SET_ACTIVITY".to_owned(),
            application_id,
            args: Some(ActivityArgs { pid: Some(pid), activity: None }),
            nonce: "null".to_owned(),
            raw: String::new(),
        }
    }

    /// Name the application that a command is for, unless it names one
    /// itself, and carry it into the activity.
    pub fn stamp(self, fallback: Option<&str>) -> (r: Self)
        ensures
            r@ == stamped(self@, crate::json::opt_str(fallback)),
    {
        let application_id = match self.application_id {
            Some(app) => Some(app),
            None => match fallback {
                Some(app) => Some(app.to_owned()),
                None => None,
            },
        };
        let args = match self.args {
            Some(args) => {
                let activity = match args.activity {
                    Some(activity) => match &application_id {
                        Some(app) => Some(activity.stamp(app.as_str())),
                        None => Some(activity),
                    },
                    None => None,
                };
                Some(ActivityArgs { pid: args.pid, activity })
            },
            None => None,
        };
        ActivityCmd { cmd: self.cmd, application_id, args, nonce: self.nonce, raw: self.raw }
    }

    /// The publishing process; `0` when the command names none.
    pub fn pid(&self) -> (r: u64)
        ensures
            r == self@.pid(),
    {
        match &self.args {
            Some(args) => match args.pid {
                Some(pid) => pid,
                None => 0,
            },
            None => 0,
        }
    }

    /// Rendering of the activity, by which publishes are compared.
    pub fn fingerprint(&self) -> (r: Option<&str>)
        ensures
            match r {
                Some(text) => self@.fingerprint() == Some(text@),
                None => self@.fingerprint() is None,
            },
    {
        match &self.args {
            Some(args) => match &args.activity {
                Some(activity) => Some(activity.json.as_str()),
                None => None,
            },
            None => None,
        }
    }
}

/// A payload in both wire encodings, with the facts that the replay cache
/// and the change detection need.
pub struct CachedActivity {
    pub json: String,
    pub msgpack: Vec<u8>,
    pub is_clear: bool,
    pub activity_json: String,
}

/// Model of a [`CachedActivity`].
pub struct CachedView {
    pub json: Seq<char>,
    pub msgpack: Seq<u8>,
    pub is_clear: bool,
    pub activity_json: Seq<char>,
}

impl View for CachedActivity {
    type V = CachedView;

    open spec fn view(&self) -> CachedView {
        CachedView {
            json: self.json@,
            msgpack: self.msgpack@,
            is_clear: self.is_clear,
            activity_json: self.activity_json@,
        }
    }
}

/// The published JSON object: activity, pid where known, and publisher.
pub open spec fn envelope(activity: Seq<char>, pid: Option<u64>, socket_id: Seq<char>) -> Seq<
    char,
> {
    let head = "{\"activity\":"@ + activity;
    let mid = match pid {
        Some(pid) => head + ",\"pid\":"@ + decimal(pid as nat),
        None => head,
    };
    mid + ",\"socketId\":"@ + json_quoted(socket_id) + "}"@
}

/// Write the published JSON object.
fn envelope_text(activity: &str, pid: Option<u64>, socket_id: &str) -> (r: String)
    ensures
        r@ == envelope(activity@, pid, socket_id@),
{
    let mut out = String::new();
    out.append("{\"activity\":");
    assert(out@ == "{\"activity\":"@);
    out.append(activity);
    if let Some(pid) = pid {
        out.append(",\"pid\":");
        push_decimal(pid, &mut out);
    }
    out.append(",\"socketId\":");
    out.append(json_quote(socket_id).as_str());
    out.append("}");
    out
}

/// Payload that publishes `activity` (or clears, when there is none) for the
/// publisher `socket_id`. Nothing when the object has no MessagePack form.
pub open spec fn payload_of(
    activity: Option<Seq<char>>,
    pid: Option<u64>,
    socket_id: Seq<char>,
) -> Option<CachedView> {
    let json = envelope(
        match activity {
            Some(text) => text,
            None => "null"@,
        },
        pid,
        socket_id,
    );
    match msgpack_of(json) {
        Some(msgpack) => Some(
            CachedView {
                json,
                msgpack,
                is_clear: activity is None,
                activity_json: match activity {
                    Some(text) => text,
                    None => Seq::empty(),
                },
            },
        ),
        None => None,
    }
}

/// Model of an optional payload.
pub open spec fn opt_cached(p: Option<Arc<CachedActivity>>) -> Option<CachedView> {
    match p {
        Some(payload) => Some(payload@),
        None => None,
    }
}

/// Build a payload in both encodings.
fn build_payload(activity: Option<&str>, pid: Option<u64>, socket_id: &str) -> (r: Option<
    Arc<CachedActivity>,
>)
    ensures
        opt_cached(r) == payload_of(crate::json::opt_str(activity), pid, socket_id@),
{
    let json = envelope_text(
        match activity {
            Some(text) => text,
            None => "null",
        },
        pid,
        socket_id,
    );
    match json_to_msgpack(json.as_str()) {
        Some(msgpack) => {
            let (is_clear, activity_json) = match activity {
                Some(text) => (false, text.to_owned()),
                None => (true, String::new()),
            };
            Some(Arc::new(CachedActivity { json, msgpack, is_clear, activity_json }))
        },
        None => None,
    }
}

/// Payload of an activity command. Nothing for a command without arguments,
/// which is malformed, or when the object has no MessagePack form.
pub open spec fn activity_payload(cmd: CmdView) -> Option<CachedView> {
    match cmd.args {
        Some((pid, activity)) => payload_of(cmd.fingerprint(), pid, decimal(cmd.pid() as nat)),
        None => None,
    }
}

/// Build the payload of an activity command; the publisher is its pid.
pub fn cached_activity(cmd: &ActivityCmd) -> (r: Option<Arc<CachedActivity>>)
    ensures
        opt_cached(r) == activity_payload(cmd@),
{
    match &cmd.args {
        Some(args) => {
            let socket_id = decimal_text(cmd.pid());
            build_payload(cmd.fingerprint(), args.pid, socket_id.as_str())
        },
        None => None,
    }
}

/// Payload that clears what `socket_id` shows.
pub open spec fn clear_payload(pid: u64, socket_id: Seq<char>) -> Option<CachedView> {
    payload_of(None, Some(pid), socket_id)
}

/// Build the payload that clears what `socket_id` shows.
pub fn empty_cached(pid: u64, socket_id: &str) -> (r: Option<Arc<CachedActivity>>)
    ensures
        opt_cached(r) == clear_payload(pid, socket_id@),
{
    build_payload(None, Some(pid), socket_id)
}

/// A game that the process scanner found.
pub struct ScannedGame {
    pub id: String,
    pub name: String,
    pub pid: u64,
    pub start: u64,
}

/// Model of a [`ScannedGame`].
pub struct GameView {
    pub id: Seq<char>,
    pub name: Seq<char>,
    pub pid: u64,
    pub start: u64,
}

impl View for ScannedGame {
    type V = GameView;

    open spec fn view(&self) -> GameView {
        GameView { id: self.id@, name: self.name@, pid: self.pid, start: self.start }
    }
}

impl Clone for ScannedGame {
    fn clone(&self) -> (r: Self)
        ensures
            r == *self,
    {
        ScannedGame {
            id: self.id.clone(),
            name: self.name.clone(),
            pid: self.pid,
            start: self.start,
        }
    }
}

/// JSON of the generic activity of a scanned game.
pub open spec fn generic_activity(id: Seq<char>, name: Seq<char>, start: u64) -> Seq<char> {
    "{\"application_id\":"@ + json_quoted(id) + ",\"name\":"@ + json_quoted(name)
        + ",\"timestamps\":{\"start\":"@ + decimal(start as nat)
        + "},\"type\":0,\"metadata\":{},\"flags\":0}"@
}

/// Generic payload of a scanned game: published under its application id.
/// Without a MessagePack form the binary encoding is empty.
pub open spec fn generic_view(game: GameView) -> CachedView {
    let activity_json = generic_activity(game.id, game.name, game.start);
    let json = envelope(activity_json, Some(game.pid), game.id);
    CachedView {
        json,
        msgpack: match msgpack_of(json) {
            Some(bytes) => bytes,
            None => Seq::empty(),
        },
        is_clear: false,
        activity_json,
    }
}

/// Build the generic payload of a scanned game.
pub fn generic_payload(game: &ScannedGame) -> (r: Arc<CachedActivity>)
    ensures
        r@ == generic_view(game@),
{
    let mut activity_json = String::new();
    activity_json.append("{\"application_id\":");
    assert(activity_json@ == "{\"application_id\":"@);
    activity_json.append(json_quote(game.id.as_str()).as_str());
    activity_json.append(",\"name\":");
    activity_json.append(json_quote(game.name.as_str()).as_str());
    activity_json.append(",\"timestamps\":{\"start\":");
    push_decimal(game.start, &mut activity_json);
    activity_json.append("},\"type\":0,\"metadata\":{},\"flags\":0}");
    let json = envelope_text(activity_json.as_str(), Some(game.pid), game.id.as_str());
    let msgpack = match json_to_msgpack(json.as_str()) {
        Some(bytes) => bytes,
        None => Vec::new(),
    };
    Arc::new(CachedActivity { json, msgpack, is_clear: false, activity_json })
}

} // verus!
