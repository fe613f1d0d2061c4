//! The command table that both game transports share, and the replies.
use crate::json::{json_quote, json_quoted, json_str, json_str_at};
use crate::payload::{ActivityCmd, CmdView};
use crate::text::{decimal, push_decimal, same};
use crate::user::{user_json, RpcUser, UserView};
use vstd::prelude::*;

verus! {

/// What a command asks for.
#[derive(Clone, Copy, PartialEq, Eq, Structural, Debug)]
pub enum Command {
    SetActivity,
    Subscribe,
    GetUser,
    /// A browser command, with the error code of an invalid code.
    Browser { invalid: u64 },
    DeepLink,
    ConnectionsCallback,
    /// Needs an authorisation dialog.
    Authorize,
    /// Needs an eligible activity.
    Invite,
    /// Needs live state of the real client.
    Client,
    Unknown,
}

/// Whether the command named `name` is about a guild or a channel.
pub open spec fn about_guild_or_channel(name: Seq<char>) -> bool {
    name == "GET_GUILD"@
        || name == "GET_GUILDS"@
        || name == "GET_CHANNEL"@
        || name == "GET_CHANNELS"@
        || name == "SELECT_TEXT_CHANNEL"@
        || name == "CREATE_CHANNEL_INVITE"@
}

/// Whether the command named `name` is about voice.
pub open spec fn about_voice(name: Seq<char>) -> bool {
    name == "SELECT_VOICE_CHANNEL"@
        || name == "GET_SELECTED_VOICE_CHANNEL"@
        || name == "GET_VOICE_SETTINGS"@
        || name == "SET_VOICE_SETTINGS"@
        || name == "SET_VOICE_SETTINGS_2"@
        || name == "SET_USER_VOICE_SETTINGS"@
        || name == "SET_USER_VOICE_SETTINGS_2"@
        || name == "SET_CERTIFIED_DEVICES"@
        || name == "PUSH_TO_TALK"@
        || name == "CONNECT_TO_LOBBY_VOICE"@
        || name == "DISCONNECT_FROM_LOBBY_VOICE"@
}

/// Whether the command named `name` is about the overlay, the store or capturing.
pub open spec fn about_overlay_store_or_capture(name: Seq<char>) -> bool {
    name == "OVERLAY"@
        || name == "SET_OVERLAY_LOCKED"@
        || name == "OPEN_OVERLAY_ACTIVITY_INVITE"@
        || name == "OPEN_OVERLAY_GUILD_INVITE"@
        || name == "OPEN_OVERLAY_VOICE_SETTINGS"@
        || name == "GET_SKUS"@
        || name == "GET_ENTITLEMENTS"@
        || name == "GET_ENTITLEMENT_TICKET"@
        || name == "START_PURCHASE"@
        || name == "VALIDATE_APPLICATION"@
        || name == "CAPTURE_SHORTCUT"@
}

/// What the command named `name` asks for.
pub open spec fn command_of(name: Seq<char>) -> Command {
    if name == "SET_ACTIVITY"@ {
        Command::SetActivity
    } else if name == "SUBSCRIBE"@ || name == "UNSUBSCRIBE"@ {
        Command::Subscribe
    } else if name == "GET_USER"@ {
        Command::GetUser
    } else if name == "INVITE_BROWSER"@ {
        Command::Browser { invalid: 4011 }
    } else if name == "GUILD_TEMPLATE_BROWSER"@ {
        Command::Browser { invalid: 4017 }
    } else if name == "GIFT_CODE_BROWSER"@ {
        Command::Browser { invalid: 4016 }
    } else if name == "DEEP_LINK"@ {
        Command::DeepLink
    } else if name == "CONNECTIONS_CALLBACK"@ {
        Command::ConnectionsCallback
    } else if name == "AUTHORIZE"@ || name == "AUTHENTICATE"@ {
        Command::Authorize
    } else if name == "SEND_ACTIVITY_JOIN_INVITE"@ || name == "CLOSE_ACTIVITY_REQUEST"@ || name
        == "ACCEPT_ACTIVITY_INVITE"@ || name == "ACTIVITY_INVITE_USER"@ {
        Command::Invite
    } else if about_guild_or_channel(name) || about_voice(name) || about_overlay_store_or_capture(
        name,
    ) {
        Command::Client
    } else {
        Command::Unknown
    }
}

/// Whether the command named `name` is about a guild or a channel.
fn is_about_guild_or_channel(name: &str) -> (r: bool)
    ensures
        r == about_guild_or_channel(name@),
{
    same(name, "GET_GUILD")
        || same(name, "GET_GUILDS")
        || same(name, "GET_CHANNEL")
        || same(name, "GET_CHANNELS")
        || same(name, "SELECT_TEXT_CHANNEL")
        || same(name, "CREATE_CHANNEL_INVITE")
}

/// Whether the command named `name` is about voice.
fn is_about_voice(name: &str) -> (r: bool)
    ensures
        r == about_voice(name@),
{
    same(name, "SELECT_VOICE_CHANNEL")
        || same(name, "GET_SELECTED_VOICE_CHANNEL")
        || same(name, "GET_VOICE_SETTINGS")
        || same(name, "SET_VOICE_SETTINGS")
        || same(name, "SET_VOICE_SETTINGS_2")
        || same(name, "SET_USER_VOICE_SETTINGS")
        || same(name, "SET_USER_VOICE_SETTINGS_2")
        || same(name, "SET_CERTIFIED_DEVICES")
        || same(name, "PUSH_TO_TALK")
        || same(name, "CONNECT_TO_LOBBY_VOICE")
        || same(name, "DISCONNECT_FROM_LOBBY_VOICE")
}

/// Whether the command named `name` is about the overlay, the store or capturing.
fn is_about_overlay_store_or_capture(name: &str) -> (r: bool)
    ensures
        r == about_overlay_store_or_capture(name@),
{
    same(name, "OVERLAY")
        || same(name, "SET_OVERLAY_LOCKED")
        || same(name, "OPEN_OVERLAY_ACTIVITY_INVITE")
        || same(name, "OPEN_OVERLAY_GUILD_INVITE")
        || same(name, "OPEN_OVERLAY_VOICE_SETTINGS")
        || same(name, "GET_SKUS")
        || same(name, "GET_ENTITLEMENTS")
        || same(name, "GET_ENTITLEMENT_TICKET")
        || same(name, "START_PURCHASE")
        || same(name, "VALIDATE_APPLICATION")
        || same(name, "CAPTURE_SHORTCUT")
}

/// What the command named `name` asks for.
pub fn command(name: &str) -> (r: Command)
    ensures
        r == command_of(name@),
{
    if same(name, "SET_ACTIVITY") {
        Command::SetActivity
    } else if same(name, "SUBSCRIBE") || same(name, "UNSUBSCRIBE") {
        Command::Subscribe
    } else if same(name, "GET_USER") {
        Command::GetUser
    } else if same(name, "INVITE_BROWSER") {
        Command::Browser { invalid: 4011 }
    } else if same(name, "GUILD_TEMPLATE_BROWSER") {
        Command::Browser { invalid: 4017 }
    } else if same(name, "GIFT_CODE_BROWSER") {
        Command::Browser { invalid: 4016 }
    } else if same(name, "DEEP_LINK") {
        Command::DeepLink
    } else if same(name, "CONNECTIONS_CALLBACK") {
        Command::ConnectionsCallback
    } else if same(name, "AUTHORIZE") || same(name, "AUTHENTICATE") {
        Command::Authorize
    } else if same(name, "SEND_ACTIVITY_JOIN_INVITE") || same(name, "CLOSE_ACTIVITY_REQUEST")
        || same(name, "ACCEPT_ACTIVITY_INVITE") || same(name, "ACTIVITY_INVITE_USER") {
        Command::Invite
    } else if is_about_guild_or_channel(name) || is_about_voice(name)
        || is_about_overlay_store_or_capture(name) {
        Command::Client
    } else {
        Command::Unknown
    }
}

/// A reply to the command `cmd`.
pub open spec fn reply_json(
    cmd: Seq<char>,
    data: Seq<char>,
    evt: Seq<char>,
    nonce: Seq<char>,
) -> Seq<char> {
    "{\"cmd\":"@ + json_quoted(cmd) + ",\"data\":"@ + data + ",\"evt\":"@ + evt + ",\"nonce\":"@
        + nonce + "}"@
}

/// A reply to the command `cmd`.
fn reply_text(cmd: &str, data: &str, evt: &str, nonce: &str) -> (r: String)
    ensures
        r@ == reply_json(cmd@, data@, evt@, nonce@),
{
    let mut out = String::new();
    out.append("{\"cmd\":");
    assert(out@ == "{\"cmd\":"@);
    out.append(json_quote(cmd).as_str());
    out.append(",\"data\":");
    out.append(data);
    out.append(",\"evt\":");
    out.append(evt);
    out.append(",\"nonce\":");
    out.append(nonce);
    out.append("}");
    out
}

/// Confirmation with `data`.
pub open spec fn confirm_json(cmd: CmdView, data: Seq<char>) -> Seq<char> {
    reply_json(cmd.cmd, data, "null"@, cmd.nonce)
}

/// Confirm a command with `data`.
pub fn confirm(cmd: &ActivityCmd, data: &str) -> (r: String)
    ensures
        r@ == confirm_json(cmd@, data@),
{
    reply_text(cmd.cmd.as_str(), data, "null", cmd.nonce.as_str())
}

/// Refusal with a code and a message.
pub open spec fn refuse_json(cmd: CmdView, code: u64, message: Seq<char>) -> Seq<char> {
    reply_json(
        cmd.cmd,
        "{\"code\":"@ + decimal(code as nat) + ",\"message\":"@ + json_quoted(message) + "}"@,
        "\"ERROR\""@,
        cmd.nonce,
    )
}

/// Refuse a command with a code and a message.
pub fn refuse(cmd: &ActivityCmd, code: u64, message: &str) -> (r: String)
    ensures
        r@ == refuse_json(cmd@, code, message@),
{
    let mut data = String::new();
    data.append("{\"code\":");
    assert(data@ == "{\"code\":"@);
    push_decimal(code, &mut data);
    data.append(",\"message\":");
    data.append(json_quote(message).as_str());
    data.append("}");
    reply_text(cmd.cmd.as_str(), data.as_str(), "\"ERROR\"", cmd.nonce.as_str())
}

/// What a transport does with a command: what it forwards, what it replies.
pub struct Answered {
    /// Whether the command goes on to the bridge.
    pub forward: bool,
    pub reply: String,
}

/// The reply to an activity command: its own activity again, or `null` for a
/// clear; refused without arguments.
pub open spec fn activity_reply(cmd: CmdView) -> Seq<char> {
    match cmd.args {
        None => refuse_json(cmd, 4005, "Missing activity args"@),
        Some(_) => confirm_json(
            cmd,
            match cmd.fingerprint() {
                Some(activity) => activity,
                None => "null"@,
            },
        ),
    }
}

/// Answer an activity command that names its application.
pub fn answer_activity(cmd: &ActivityCmd) -> (r: Answered)
    ensures
        r.forward == (cmd@.args is Some),
        r.reply@ == activity_reply(cmd@),
{
    if cmd.args.is_none() {
        return Answered { forward: false, reply: refuse(cmd, 4005, "Missing activity args") };
    }
    let data = match cmd.fingerprint() {
        Some(activity) => activity,
        None => "null",
    };
    Answered { forward: true, reply: confirm(cmd, data) }
}

/// The identity that a command asks for: this one, unless it names another.
pub open spec fn user_reply(cmd: CmdView, user: UserView, wanted: Option<Seq<char>>) -> Seq<char> {
    confirm_json(
        cmd,
        match wanted {
            Some(id) => if id == user.id {
                user_json(user)
            } else {
                "null"@
            },
            None => user_json(user),
        },
    )
}

/// Answer a request for an identity.
pub fn answer_user(cmd: &ActivityCmd, user: &RpcUser, wanted: Option<&str>) -> (r: String)
    ensures
        r@ == user_reply(cmd@, user@, crate::json::opt_str(wanted)),
{
    let other = match wanted {
        Some(id) => !same(id, user.id.as_str()),
        None => false,
    };
    if other {
        confirm(cmd, "null")
    } else {
        confirm(cmd, user.to_json().as_str())
    }
}

/// Message of an invalid browser code.
pub open spec fn invalid_code_message(code: u64) -> Seq<char> {
    if code == 4011 {
        "Invalid invite"@
    } else if code == 4017 {
        "Invalid guild template"@
    } else {
        "Invalid gift code"@
    }
}

/// Whether a browser command is refused: its code is checked, and missing or
/// empty.
pub open spec fn code_refused(check_codes: bool, code: Option<Seq<char>>) -> bool {
    check_codes && (code is None || code->0.len() == 0)
}

/// The reply to a command that is no activity, with what was read of it: the
/// wanted user and the browser code.
pub open spec fn other_reply(
    cmd: CmdView,
    user: UserView,
    check_codes: bool,
    wanted: Option<Seq<char>>,
    code: Option<Seq<char>>,
) -> Seq<char> {
    match command_of(cmd.cmd) {
        Command::SetActivity => activity_reply(cmd),
        Command::Subscribe => confirm_json(cmd, "null"@),
        Command::GetUser => user_reply(cmd, user, wanted),
        Command::Browser { invalid } => if code_refused(check_codes, code) {
            refuse_json(cmd, invalid, invalid_code_message(invalid))
        } else {
            confirm_json(cmd, "null"@)
        },
        Command::DeepLink => confirm_json(cmd, "null"@),
        Command::ConnectionsCallback => refuse_json(
            cmd,
            1000,
            "CONNECTIONS_CALLBACK is not supported"@,
        ),
        Command::Authorize => refuse_json(
            cmd,
            5000,
            "Authorization requires the real Discord client"@,
        ),
        Command::Invite => refuse_json(
            cmd,
            5006,
            "No eligible activity: invites require the real Discord client"@,
        ),
        Command::Client => refuse_json(cmd, 1000, "requires the real Discord client"@),
        Command::Unknown => refuse_json(cmd, 1000, "Unknown command"@),
    }
}

/// Whether a command that is no activity goes on to the bridge.
pub open spec fn other_forwarded(cmd: CmdView, check_codes: bool, code: Option<Seq<char>>) -> bool {
    match command_of(cmd.cmd) {
        Command::SetActivity => cmd.args is Some,
        Command::Browser { invalid } => !code_refused(check_codes, code),
        Command::DeepLink => true,
        _ => false,
    }
}

/// Answer a command, with what was read of it: the wanted user and the
/// browser code.
pub fn answer(
    cmd: &ActivityCmd,
    user: &RpcUser,
    check_codes: bool,
    wanted: Option<&str>,
    code: Option<&str>,
) -> (r: Answered)
    ensures
        r.forward == other_forwarded(cmd@, check_codes, crate::json::opt_str(code)),
        r.reply@ == other_reply(
            cmd@,
            user@,
            check_codes,
            crate::json::opt_str(wanted),
            crate::json::opt_str(code),
        ),
{
    match command(cmd.cmd.as_str()) {
        Command::SetActivity => answer_activity(cmd),
        Command::Subscribe => Answered { forward: false, reply: confirm(cmd, "null") },
        Command::GetUser => Answered { forward: false, reply: answer_user(cmd, user, wanted) },
        Command::Browser { invalid } => {
            let refused = check_codes && match code {
                Some(code) => code.is_empty(),
                None => true,
            };
            if refused {
                let message = if invalid == 4011 {
                    "Invalid invite"
                } else if invalid == 4017 {
                    "Invalid guild template"
                } else {
                    "Invalid gift code"
                };
                Answered { forward: false, reply: refuse(cmd, invalid, message) }
            } else {
                Answered { forward: true, reply: confirm(cmd, "null") }
            }
        },
        Command::DeepLink => Answered { forward: true, reply: confirm(cmd, "null") },
        Command::ConnectionsCallback => Answered {
            forward: false,
            reply: refuse(cmd, 1000, "CONNECTIONS_CALLBACK is not supported"),
        },
        Command::Authorize => Answered {
            forward: false,
            reply: refuse(cmd, 5000, "Authorization requires the real Discord client"),
        },
        Command::Invite => Answered {
            forward: false,
            reply: refuse(
                cmd,
                5006,
                "No eligible activity: invites require the real Discord client",
            ),
        },
        Command::Client => Answered {
            forward: false,
            reply: refuse(cmd, 1000, "requires the real Discord client"),
        },
        Command::Unknown => Answered { forward: false, reply: refuse(cmd, 1000, "Unknown command") },
    }
}

/// Answer a command out of its JSON.
pub fn answer_command(cmd: &ActivityCmd, user: &RpcUser, check_codes: bool) -> (r: Answered)
    ensures
        r.forward == other_forwarded(cmd@, check_codes, json_str(cmd@.raw, "/args/code"@)),
        r.reply@ == other_reply(
            cmd@,
            user@,
            check_codes,
            json_str(cmd@.raw, "/args/id"@),
            json_str(cmd@.raw, "/args/code"@),
        ),
{
    let wanted = json_str_at(cmd.raw.as_str(), "/args/id");
    let code = json_str_at(cmd.raw.as_str(), "/args/code");
    answer(
        cmd,
        user,
        check_codes,
        match &wanted {
            Some(id) => Some(id.as_str()),
            None => None,
        },
        match &code {
            Some(code) => Some(code.as_str()),
            None => None,
        },
    )
}

} // verus!
