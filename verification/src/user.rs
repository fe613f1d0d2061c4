//! The identity that is reported to clients, and its control messages.
use crate::json::{
    json_bool, json_bool_at, json_quote, json_quoted, json_str, json_str_at, json_text,
    json_text_at, json_u64, json_u64_at, opt_text,
};
use crate::text::{at, chars_of, decimal, holds, push_decimal, same, trim_bounds, trimmed};
use crate::text_laws::{blank, law_trimmed};
use vstd::prelude::*;

verus! {

/// The reported identity.
pub struct RpcUser {
    pub id: String,
    pub username: String,
    pub global_name: String,
    pub discriminator: String,
    pub avatar: Option<String>,
    pub bot: bool,
    pub flags: u64,
    pub premium_type: u64,
}

/// Model of an [`RpcUser`].
#[verifier::ext_equal]
pub struct UserView {
    pub id: Seq<char>,
    pub username: Seq<char>,
    pub global_name: Seq<char>,
    pub discriminator: Seq<char>,
    pub avatar: Option<Seq<char>>,
    pub bot: bool,
    pub flags: u64,
    pub premium_type: u64,
}

impl View for RpcUser {
    type V = UserView;

    open spec fn view(&self) -> UserView {
        UserView {
            id: self.id@,
            username: self.username@,
            global_name: self.global_name@,
            discriminator: self.discriminator@,
            avatar: opt_text(self.avatar),
            bot: self.bot,
            flags: self.flags,
            premium_type: self.premium_type,
        }
    }
}

/// The identity without configuration.
pub open spec fn default_user() -> UserView {
    UserView {
        id: "1045800378228281345"@,
        username: "arRPC"@,
        global_name: "arRPC"@,
        discriminator: "0"@,
        avatar: None,
        bot: false,
        flags: 0,
        premium_type: 0,
    }
}

impl Default for RpcUser {
    fn default() -> (r: Self)
        ensures
            r@ == default_user(),
    {
        RpcUser {
            id: "1045800378228281345".to_owned(),
            username: "arRPC".to_owned(),
            global_name: "arRPC".to_owned(),
            discriminator: "0".to_owned(),
            avatar: None,
            bot: false,
            flags: 0,
            premium_type: 0,
        }
    }
}

impl Clone for RpcUser {
    fn clone(&self) -> (r: Self)
        ensures
            r == *self,
    {
        RpcUser {
            id: self.id.clone(),
            username: self.username.clone(),
            global_name: self.global_name.clone(),
            discriminator: self.discriminator.clone(),
            avatar: match &self.avatar {
                Some(text) => Some(text.clone()),
                None => None,
            },
            bot: self.bot,
            flags: self.flags,
            premium_type: self.premium_type,
        }
    }
}

/// JSON of a boolean.
pub open spec fn bool_json(b: bool) -> Seq<char> {
    if b {
        "true"@
    } else {
        "false"@
    }
}

/// JSON object of an identity.
pub open spec fn user_json(user: UserView) -> Seq<char> {
    "{\"avatar\":"@ + (match user.avatar {
        Some(text) => json_quoted(text),
        None => "null"@,
    }) + ",\"bot\":"@ + bool_json(user.bot) + ",\"discriminator\":"@ + json_quoted(
        user.discriminator,
    ) + ",\"flags\":"@ + decimal(user.flags as nat) + ",\"global_name\":"@ + json_quoted(
        user.global_name,
    ) + ",\"id\":"@ + json_quoted(user.id) + ",\"premium_type\":"@ + decimal(
        user.premium_type as nat,
    ) + ",\"username\":"@ + json_quoted(user.username) + "}"@
}

/// The event that greets a client.
pub open spec fn ready_json(user: UserView) -> Seq<char> {
    "{\"cmd\":\"DISPATCH\",\"evt\":\"READY\",\"data\":{\"v\":1,\"user\":"@ + user_json(user)
        + ",\"config\":{\"api_endpoint\":\"//discord.com/api\",\"cdn_host\":\"cdn.discordapp.com\",\"environment\":\"production\"}},\"nonce\":null}"@
}

/// The event that tells clients of a changed identity.
pub open spec fn user_update_json(user: UserView) -> Seq<char> {
    "{\"cmd\":\"DISPATCH\",\"evt\":\"CURRENT_USER_UPDATE\",\"data\":"@ + user_json(user)
        + ",\"nonce\":null}"@
}

/// Answer to a control message `kind`.
pub open spec fn ack_json(kind: Seq<char>, nonce: Seq<char>, user: UserView) -> Seq<char> {
    "{\"data\":{\"success\":true,\"user\":"@ + user_json(user) + "},\"nonce\":"@ + nonce
        + ",\"type\":\""@ + kind + "_ACK\"}"@
}

/// What a patch does to the avatar.
pub enum AvatarPatch {
    Keep,
    Clear,
    Replace(String),
}

/// A patch of the identity: absent fields stay.
pub struct UserPatch {
    pub id: Option<String>,
    pub username: Option<String>,
    pub global_name: Option<String>,
    pub discriminator: Option<String>,
    pub avatar: AvatarPatch,
    pub bot: Option<bool>,
    pub flags: Option<u64>,
    pub premium_type: Option<u64>,
}

/// Model of a [`UserPatch`]; the avatar is replaced by the inner option.
#[verifier::ext_equal]
pub struct PatchView {
    pub id: Option<Seq<char>>,
    pub username: Option<Seq<char>>,
    pub global_name: Option<Seq<char>>,
    pub discriminator: Option<Seq<char>>,
    pub avatar: Option<Option<Seq<char>>>,
    pub bot: Option<bool>,
    pub flags: Option<u64>,
    pub premium_type: Option<u64>,
}

impl View for UserPatch {
    type V = PatchView;

    open spec fn view(&self) -> PatchView {
        PatchView {
            id: opt_text(self.id),
            username: opt_text(self.username),
            global_name: opt_text(self.global_name),
            discriminator: opt_text(self.discriminator),
            avatar: match self.avatar {
                AvatarPatch::Keep => None,
                AvatarPatch::Clear => Some(None),
                AvatarPatch::Replace(text) => Some(Some(text@)),
            },
            bot: self.bot,
            flags: self.flags,
            premium_type: self.premium_type,
        }
    }
}

/// `new` where it is given and not blank, else `old_text`.
pub open spec fn unless_blank(old_text: Seq<char>, new: Option<Seq<char>>) -> Seq<char> {
    match new {
        Some(text) => if trimmed(text).len() == 0 {
            old_text
        } else {
            text
        },
        None => old_text,
    }
}

/// `user` with `patch` applied: blank texts are ignored.
pub open spec fn patched(user: UserView, patch: PatchView) -> UserView {
    UserView {
        id: unless_blank(user.id, patch.id),
        username: unless_blank(user.username, patch.username),
        global_name: unless_blank(user.global_name, patch.global_name),
        discriminator: unless_blank(user.discriminator, patch.discriminator),
        avatar: match patch.avatar {
            Some(avatar) => avatar,
            None => user.avatar,
        },
        bot: match patch.bot {
            Some(b) => b,
            None => user.bot,
        },
        flags: match patch.flags {
            Some(n) => n,
            None => user.flags,
        },
        premium_type: match patch.premium_type {
            Some(n) => n,
            None => user.premium_type,
        },
    }
}

/// Replace `field` by `new` where that is given and not blank.
fn replace_unless_blank(field: &mut String, new: &Option<String>)
    ensures
        final(field)@ == unless_blank(old(field)@, opt_text(*new)),
{
    if let Some(text) = new {
        let v = chars_of(text.as_str());
        let (a, b) = trim_bounds(&v);
        assert(v@.subrange(a as int, b as int).len() == b - a);
        if a < b {
            *field = text.clone();
        }
    }
}

/// Whether two optional texts are the same.
fn same_avatar(a: &Option<String>, b: &Option<String>) -> (r: bool)
    ensures
        r == (opt_text(*a) == opt_text(*b)),
{
    match a {
        Some(x) => match b {
            Some(y) => same(x.as_str(), y.as_str()),
            None => false,
        },
        None => b.is_none(),
    }
}

impl RpcUser {
    /// Whether two identities are the same.
    pub fn same_as(&self, other: &RpcUser) -> (r: bool)
        ensures
            r == (self@ == other@),
    {
        let r = same(self.id.as_str(), other.id.as_str()) && same(
            self.username.as_str(),
            other.username.as_str(),
        ) && same(self.global_name.as_str(), other.global_name.as_str()) && same(
            self.discriminator.as_str(),
            other.discriminator.as_str(),
        ) && same_avatar(&self.avatar, &other.avatar) && self.bot == other.bot && self.flags
            == other.flags && self.premium_type == other.premium_type;
        r
    }

    /// Apply a patch; blank texts are ignored.
    pub fn patch(&mut self, patch: &UserPatch)
        ensures
            final(self)@ == patched(old(self)@, patch@),
    {
        replace_unless_blank(&mut self.id, &patch.id);
        replace_unless_blank(&mut self.username, &patch.username);
        replace_unless_blank(&mut self.global_name, &patch.global_name);
        replace_unless_blank(&mut self.discriminator, &patch.discriminator);
        match &patch.avatar {
            AvatarPatch::Keep => {},
            AvatarPatch::Clear => {
                self.avatar = None;
            },
            AvatarPatch::Replace(text) => {
                self.avatar = Some(text.clone());
            },
        }
        if let Some(b) = patch.bot {
            self.bot = b;
        }
        if let Some(n) = patch.flags {
            self.flags = n;
        }
        if let Some(n) = patch.premium_type {
            self.premium_type = n;
        }
    }

    /// The identity as a JSON object.
    pub fn to_json(&self) -> (r: String)
        ensures
            r@ == user_json(self@),
    {
        let mut out = String::new();
        out.append("{\"avatar\":");
        assert(out@ == "{\"avatar\":"@);
        match &self.avatar {
            Some(text) => out.append(json_quote(text.as_str()).as_str()),
            None => out.append("null"),
        }
        out.append(",\"bot\":");
        out.append(if self.bot { "true" } else { "false" });
        out.append(",\"discriminator\":");
        out.append(json_quote(self.discriminator.as_str()).as_str());
        out.append(",\"flags\":");
        push_decimal(self.flags, &mut out);
        out.append(",\"global_name\":");
        out.append(json_quote(self.global_name.as_str()).as_str());
        out.append(",\"id\":");
        out.append(json_quote(self.id.as_str()).as_str());
        out.append(",\"premium_type\":");
        push_decimal(self.premium_type, &mut out);
        out.append(",\"username\":");
        out.append(json_quote(self.username.as_str()).as_str());
        out.append("}");
        out
    }

    /// The event that greets a client.
    pub fn ready_payload(&self) -> (r: String)
        ensures
            r@ == ready_json(self@),
    {
        let mut out = String::new();
        out.append("{\"cmd\":\"DISPATCH\",\"evt\":\"READY\",\"data\":{\"v\":1,\"user\":");
        assert(out@ == "{\"cmd\":\"DISPATCH\",\"evt\":\"READY\",\"data\":{\"v\":1,\"user\":"@);
        out.append(self.to_json().as_str());
        out.append(
            ",\"config\":{\"api_endpoint\":\"//discord.com/api\",\"cdn_host\":\"cdn.discordapp.com\",\"environment\":\"production\"}},\"nonce\":null}",
        );
        out
    }
}

/// The event that tells clients of a changed identity.
pub fn current_user_update(user: &RpcUser) -> (r: String)
    ensures
        r@ == user_update_json(user@),
{
    let mut out = String::new();
    out.append("{\"cmd\":\"DISPATCH\",\"evt\":\"CURRENT_USER_UPDATE\",\"data\":");
    assert(out@ == "{\"cmd\":\"DISPATCH\",\"evt\":\"CURRENT_USER_UPDATE\",\"data\":"@);
    out.append(user.to_json().as_str());
    out.append(",\"nonce\":null}");
    out
}

/// The patch under the pointer `base` of `doc`.
pub open spec fn patch_at(doc: Seq<char>, base: Seq<char>) -> PatchView {
    PatchView {
        id: json_str(doc, base + "/id"@),
        username: json_str(doc, base + "/username"@),
        global_name: json_str(doc, base + "/global_name"@),
        discriminator: json_str(doc, base + "/discriminator"@),
        avatar: match json_str(doc, base + "/avatar"@) {
            Some(text) => Some(Some(text)),
            None => if json_text(doc, base + "/avatar"@) == Some("null"@) {
                Some(None)
            } else {
                None
            },
        },
        bot: json_bool(doc, base + "/bot"@),
        flags: json_u64(doc, base + "/flags"@),
        premium_type: json_u64(doc, base + "/premium_type"@),
    }
}

/// `base` followed by `rest`.
fn below(base: &str, rest: &str) -> (r: String)
    ensures
        r@ == base@ + rest@,
{
    let mut out = base.to_owned();
    out.append(rest);
    out
}

/// Read the patch under the pointer `base` of `doc`.
fn read_patch(doc: &str, base: &str) -> (r: UserPatch)
    ensures
        r@ == patch_at(doc@, base@),
{
    let avatar_at = below(base, "/avatar");
    let avatar = match json_str_at(doc, avatar_at.as_str()) {
        Some(text) => AvatarPatch::Replace(text),
        None => match json_text_at(doc, avatar_at.as_str()) {
            Some(text) => if same(text.as_str(), "null") {
                AvatarPatch::Clear
            } else {
                AvatarPatch::Keep
            },
            None => AvatarPatch::Keep,
        },
    };
    UserPatch {
        id: json_str_at(doc, below(base, "/id").as_str()),
        username: json_str_at(doc, below(base, "/username").as_str()),
        global_name: json_str_at(doc, below(base, "/global_name").as_str()),
        discriminator: json_str_at(doc, below(base, "/discriminator").as_str()),
        avatar,
        bot: json_bool_at(doc, below(base, "/bot").as_str()),
        flags: json_u64_at(doc, below(base, "/flags").as_str()),
        premium_type: json_u64_at(doc, below(base, "/premium_type").as_str()),
    }
}

/// Whether `kind` names a control message.
pub open spec fn control_kind(kind: Seq<char>) -> bool {
    kind == "SET_USER"@ || kind == "RESET_USER"@
}

/// Identity after the control message `kind`: a patch, or the startup
/// identity again.
pub open spec fn controlled(
    user: UserView,
    startup: UserView,
    kind: Seq<char>,
    patch: Option<PatchView>,
) -> UserView {
    if kind == "SET_USER"@ {
        match patch {
            Some(patch) => patched(user, patch),
            None => user,
        }
    } else {
        startup
    }
}

/// Model of an optional patch.
pub open spec fn opt_patch(patch: Option<UserPatch>) -> Option<PatchView> {
    match patch {
        Some(patch) => Some(patch@),
        None => None,
    }
}

/// Carry out a control message: the answer, and the new identity when it
/// changed.
pub fn apply_control(
    user: &mut RpcUser,
    startup: &RpcUser,
    kind: &str,
    nonce: &str,
    patch: Option<UserPatch>,
) -> (r: (String, Option<RpcUser>))
    requires
        control_kind(kind@),
    ensures
        final(user)@ == controlled(old(user)@, startup@, kind@, opt_patch(patch)),
        r.0@ == ack_json(kind@, nonce@, final(user)@),
        r.1 is Some <==> final(user)@ != old(user)@,
        r.1 matches Some(changed) ==> changed@ == final(user)@,
{
    let before = user.clone();
    if same(kind, "SET_USER") {
        if let Some(patch) = &patch {
            user.patch(patch);
        }
    } else {
        *user = startup.clone();
    }
    let mut ack = String::new();
    ack.append("{\"data\":{\"success\":true,\"user\":");
    assert(ack@ == "{\"data\":{\"success\":true,\"user\":"@);
    ack.append(user.to_json().as_str());
    ack.append("},\"nonce\":");
    ack.append(nonce);
    ack.append(",\"type\":\"");
    ack.append(kind);
    ack.append("_ACK\"}");
    if user.same_as(&before) {
        (ack, None)
    } else {
        (ack, Some(user.clone()))
    }
}

/// Kind of control message that `text` is.
pub open spec fn control_of(text: Seq<char>) -> Option<Seq<char>> {
    match json_str(text, "/type"@) {
        Some(kind) if control_kind(kind) => Some(kind),
        _ => None,
    }
}

/// The nonce of a control message, as JSON.
pub open spec fn control_nonce(text: Seq<char>) -> Seq<char> {
    match json_text(text, "/nonce"@) {
        Some(nonce) => nonce,
        None => "null"@,
    }
}

/// The patch of a control message: under `patch`, else under `data`.
pub open spec fn control_patch(text: Seq<char>) -> Option<PatchView> {
    if json_text(text, "/patch"@) is Some {
        Some(patch_at(text, "/patch"@))
    } else if json_text(text, "/data"@) is Some {
        Some(patch_at(text, "/data"@))
    } else {
        None
    }
}

/// Handle a control message. Nothing for any other text, which changes
/// nothing either.
pub fn handle_bridge_control(user: &mut RpcUser, startup: &RpcUser, text: &str) -> (r: Option<
    (String, Option<RpcUser>),
>)
    ensures
        match control_of(text@) {
            Some(kind) => {
                &&& final(user)@ == controlled(old(user)@, startup@, kind, control_patch(text@))
                &&& r matches Some((ack, changed)) && ack@ == ack_json(
                    kind,
                    control_nonce(text@),
                    final(user)@,
                ) && (changed is Some <==> final(user)@ != old(user)@) && (changed matches Some(
                    new,
                ) ==> new@ == final(user)@)
            },
            None => r is None && *final(user) == *old(user),
        },
{
    let kind = match json_str_at(text, "/type") {
        Some(kind) => kind,
        None => {
            return None;
        },
    };
    if !same(kind.as_str(), "SET_USER") && !same(kind.as_str(), "RESET_USER") {
        return None;
    }
    let nonce = match json_text_at(text, "/nonce") {
        Some(nonce) => nonce,
        None => "null".to_owned(),
    };
    let patch = if json_text_at(text, "/patch").is_some() {
        Some(read_patch(text, "/patch"))
    } else if json_text_at(text, "/data").is_some() {
        Some(read_patch(text, "/data"))
    } else {
        None
    };
    Some(apply_control(user, startup, kind.as_str(), nonce.as_str(), patch))
}

/// Identity at startup: the default, with the non-blank configured texts.
pub open spec fn startup_user(
    id: Option<Seq<char>>,
    username: Option<Seq<char>>,
    global_name: Option<Seq<char>>,
    discriminator: Option<Seq<char>>,
    avatar: Option<Seq<char>>,
) -> UserView {
    UserView {
        id: unless_blank(default_user().id, id),
        username: unless_blank(default_user().username, username),
        global_name: unless_blank(default_user().global_name, global_name),
        discriminator: unless_blank(default_user().discriminator, discriminator),
        avatar: match avatar {
            Some(text) if trimmed(text).len() > 0 => Some(text),
            _ => None,
        },
        ..default_user()
    }
}

impl RpcUser {
    /// Identity at startup from configured texts; blank ones are ignored.
    pub fn configured(
        id: Option<String>,
        username: Option<String>,
        global_name: Option<String>,
        discriminator: Option<String>,
        avatar: Option<String>,
    ) -> (r: Self)
        ensures
            r@ == startup_user(
                opt_text(id),
                opt_text(username),
                opt_text(global_name),
                opt_text(discriminator),
                opt_text(avatar),
            ),
    {
        let mut user = RpcUser::default();
        replace_unless_blank(&mut user.id, &id);
        replace_unless_blank(&mut user.username, &username);
        replace_unless_blank(&mut user.global_name, &global_name);
        replace_unless_blank(&mut user.discriminator, &discriminator);
        if let Some(text) = avatar {
            let v = chars_of(text.as_str());
            let (a, b) = trim_bounds(&v);
            assert(v@.subrange(a as int, b as int).len() == b - a);
            if a < b {
                user.avatar = Some(text);
            }
        }
        user
    }
}

/// A reset gives back the startup identity, whatever was patched before.
pub proof fn law_reset_undoes_patches(user: UserView, startup: UserView, patch: PatchView)
    ensures
        controlled(
            controlled(user, startup, "SET_USER"@, Some(patch)),
            startup,
            "RESET_USER"@,
            None,
        ) == startup,
{
    reveal_strlit("SET_USER");
    reveal_strlit("RESET_USER");
    assert("SET_USER"@.len() != "RESET_USER"@.len());
}

/// Applying the same patch again changes nothing.
pub proof fn law_patch_is_idempotent(user: UserView, patch: PatchView)
    ensures
        patched(patched(user, patch), patch) == patched(user, patch),
{
}

/// Whether a text that was `before` and is `after` went along with what was
/// given for it: a text that is not blank replaces it, anything else leaves it.
pub open spec fn follows(before: Seq<char>, given: Option<Seq<char>>, after: Seq<char>) -> bool {
    &&& given is Some && !blank(given->0) ==> given == Some(after)
    &&& given is None || blank(given->0) ==> after == before
}

proof fn lemma_follows(before: Seq<char>, given: Option<Seq<char>>)
    ensures
        follows(before, given, unless_blank(before, given)),
{
    if let Some(text) = given {
        law_trimmed(text);
    }
}

/// After a patch every text that the patch gives, and that is not blank, is
/// the reported one, and every other text is what it was. The avatar is
/// replaced, cleared or kept, and the flags and numbers that are given are
/// the reported ones.
pub proof fn law_patch_sets_what_it_gives(user: UserView, startup: UserView, patch: PatchView)
    ensures
        ({
            let after = controlled(user, startup, "SET_USER"@, Some(patch));
            &&& follows(user.id, patch.id, after.id)
            &&& follows(user.username, patch.username, after.username)
            &&& follows(user.global_name, patch.global_name, after.global_name)
            &&& follows(user.discriminator, patch.discriminator, after.discriminator)
            &&& after.avatar == (if patch.avatar is Some {
                patch.avatar->0
            } else {
                user.avatar
            })
            &&& after.bot == (if patch.bot is Some {
                patch.bot->0
            } else {
                user.bot
            })
            &&& after.flags == (if patch.flags is Some {
                patch.flags->0
            } else {
                user.flags
            })
            &&& after.premium_type == (if patch.premium_type is Some {
                patch.premium_type->0
            } else {
                user.premium_type
            })
        }),
{
    lemma_follows(user.id, patch.id);
    lemma_follows(user.username, patch.username);
    lemma_follows(user.global_name, patch.global_name);
    lemma_follows(user.discriminator, patch.discriminator);
}

/// A patch message without a patch changes nothing.
pub proof fn law_empty_patch_keeps_user(user: UserView, startup: UserView)
    ensures
        controlled(user, startup, "SET_USER"@, None) == user,
{
}

/// Of two patches the later one wins, text by text, where it gives a text that
/// is not blank; else the earlier one still stands.
pub proof fn law_later_patch_wins(user: UserView, first: PatchView, second: PatchView)
    ensures
        follows(patched(user, first).id, second.id, patched(patched(user, first), second).id),
        follows(
            patched(user, first).username,
            second.username,
            patched(patched(user, first), second).username,
        ),
        follows(
            patched(user, first).global_name,
            second.global_name,
            patched(patched(user, first), second).global_name,
        ),
        follows(
            patched(user, first).discriminator,
            second.discriminator,
            patched(patched(user, first), second).discriminator,
        ),
{
    lemma_follows(patched(user, first).id, second.id);
    lemma_follows(patched(user, first).username, second.username);
    lemma_follows(patched(user, first).global_name, second.global_name);
    lemma_follows(patched(user, first).discriminator, second.discriminator);
}

/// At startup every configured text that is not blank is the reported one;
/// without it the default stands. An avatar is reported exactly when one is
/// configured that is not blank.
pub proof fn law_startup_reports_configuration(
    id: Option<Seq<char>>,
    username: Option<Seq<char>>,
    global_name: Option<Seq<char>>,
    discriminator: Option<Seq<char>>,
    avatar: Option<Seq<char>>,
)
    ensures
        ({
            let user = startup_user(id, username, global_name, discriminator, avatar);
            &&& follows("1045800378228281345"@, id, user.id)
            &&& follows("arRPC"@, username, user.username)
            &&& follows("arRPC"@, global_name, user.global_name)
            &&& follows("0"@, discriminator, user.discriminator)
            &&& avatar is Some && !blank(avatar->0) ==> user.avatar == avatar
            &&& avatar is None || blank(avatar->0) ==> user.avatar is None
            &&& !user.bot && user.flags == 0 && user.premium_type == 0
        }),
{
    lemma_follows(default_user().id, id);
    lemma_follows(default_user().username, username);
    lemma_follows(default_user().global_name, global_name);
    lemma_follows(default_user().discriminator, discriminator);
    if let Some(text) = avatar {
        law_trimmed(text);
    }
}

/// The two control messages are told from everything else by their type.
pub proof fn law_control_types(text: Seq<char>)
    ensures
        control_of(text) == Some("SET_USER"@) <==> json_str(text, "/type"@) == Some("SET_USER"@),
        control_of(text) == Some("RESET_USER"@) <==> json_str(text, "/type"@) == Some(
            "RESET_USER"@,
        ),
        control_of(text) is None <==> json_str(text, "/type"@) != Some("SET_USER"@) && json_str(
            text,
            "/type"@,
        ) != Some("RESET_USER"@),
{
}

/// A greeting, an update and an answer carry the identity as it is reported,
/// and an answer the nonce and the type of what it answers.
#[verifier::rlimit(40)]
pub proof fn law_events_carry_user(user: UserView, kind: Seq<char>, nonce: Seq<char>)
    ensures
        holds(ready_json(user), "\"evt\":\"READY\",\"data\":{\"v\":1,\"user\":"@ + user_json(user)),
        holds(
            user_update_json(user),
            "\"evt\":\"CURRENT_USER_UPDATE\",\"data\":"@ + user_json(user),
        ),
        holds(ack_json(kind, nonce, user), "\"success\":true,\"user\":"@ + user_json(user)),
        holds(ack_json(kind, nonce, user), "\"nonce\":"@ + nonce),
        holds(ack_json(kind, nonce, user), "\"type\":\""@ + kind + "_ACK\""@),
{
    let u = user_json(user);
    let t = ready_json(user);
    reveal_strlit("{\"cmd\":\"DISPATCH\",\"evt\":\"READY\",\"data\":{\"v\":1,\"user\":");
    reveal_strlit("\"evt\":\"READY\",\"data\":{\"v\":1,\"user\":");
    let w = "\"evt\":\"READY\",\"data\":{\"v\":1,\"user\":"@ + u;
    assert(t.subrange(18, 18 + w.len() as int) =~= w);
    assert(at(t, 18, w));
    let t = user_update_json(user);
    reveal_strlit("{\"cmd\":\"DISPATCH\",\"evt\":\"CURRENT_USER_UPDATE\",\"data\":");
    reveal_strlit("\"evt\":\"CURRENT_USER_UPDATE\",\"data\":");
    let w = "\"evt\":\"CURRENT_USER_UPDATE\",\"data\":"@ + u;
    assert(t.subrange(18, 18 + w.len() as int) =~= w);
    assert(at(t, 18, w));
    let t = ack_json(kind, nonce, user);
    reveal_strlit("{\"data\":{\"success\":true,\"user\":");
    reveal_strlit("\"success\":true,\"user\":");
    let w = "\"success\":true,\"user\":"@ + u;
    assert(t.subrange(9, 9 + w.len() as int) =~= w);
    assert(at(t, 9, w));
    let p: int = "{\"data\":{\"success\":true,\"user\":"@.len() as int + u.len();
    reveal_strlit("},\"nonce\":");
    reveal_strlit("\"nonce\":");
    let w = "\"nonce\":"@ + nonce;
    assert(t.subrange(p + 2, p + 2 + w.len()) =~= w);
    assert(at(t, p + 2, w));
    let p: int = p + "},\"nonce\":"@.len() + nonce.len();
    reveal_strlit(",\"type\":\"");
    reveal_strlit("\"type\":\"");
    reveal_strlit("_ACK\"}");
    reveal_strlit("_ACK\"");
    let w = "\"type\":\""@ + kind + "_ACK\""@;
    assert(t.subrange(p + 1, p + 1 + w.len()) =~= w);
    assert(at(t, p + 1, w));
}

/// A patch that is there under `patch` is read field by field from there:
/// texts, numbers and flags of the right type, and an avatar that is a text
/// or `null`.
#[verifier::rlimit(40)]
pub proof fn law_patch_under_patch(text: Seq<char>)
    requires
        json_text(text, "/patch"@) is Some,
    ensures
        control_patch(text) matches Some(patch) && {
            &&& patch.id == json_str(text, "/patch/id"@)
            &&& patch.username == json_str(text, "/patch/username"@)
            &&& patch.global_name == json_str(text, "/patch/global_name"@)
            &&& patch.discriminator == json_str(text, "/patch/discriminator"@)
            &&& patch.bot == json_bool(text, "/patch/bot"@)
            &&& patch.flags == json_u64(text, "/patch/flags"@)
            &&& patch.premium_type == json_u64(text, "/patch/premium_type"@)
            &&& json_str(text, "/patch/avatar"@) is Some ==> patch.avatar == Some(
                json_str(text, "/patch/avatar"@),
            )
            &&& json_str(text, "/patch/avatar"@) is None && json_text(text, "/patch/avatar"@) == Some(
                "null"@,
            ) ==> patch.avatar == Some(None::<Seq<char>>)
            &&& json_str(text, "/patch/avatar"@) is None && json_text(text, "/patch/avatar"@) != Some(
                "null"@,
            ) ==> patch.avatar is None
        },
{
    reveal_strlit("/patch");
    reveal_strlit("/patch/id");
    reveal_strlit("/id");
    assert("/patch"@ + "/id"@ =~= "/patch/id"@);
    reveal_strlit("/patch/username");
    reveal_strlit("/username");
    assert("/patch"@ + "/username"@ =~= "/patch/username"@);
    reveal_strlit("/patch/global_name");
    reveal_strlit("/global_name");
    assert("/patch"@ + "/global_name"@ =~= "/patch/global_name"@);
    reveal_strlit("/patch/discriminator");
    reveal_strlit("/discriminator");
    assert("/patch"@ + "/discriminator"@ =~= "/patch/discriminator"@);
    reveal_strlit("/patch/bot");
    reveal_strlit("/bot");
    assert("/patch"@ + "/bot"@ =~= "/patch/bot"@);
    reveal_strlit("/patch/flags");
    reveal_strlit("/flags");
    assert("/patch"@ + "/flags"@ =~= "/patch/flags"@);
    reveal_strlit("/patch/premium_type");
    reveal_strlit("/premium_type");
    assert("/patch"@ + "/premium_type"@ =~= "/patch/premium_type"@);
    reveal_strlit("/patch/avatar");
    reveal_strlit("/avatar");
    assert("/patch"@ + "/avatar"@ =~= "/patch/avatar"@);
}

/// Without one, a patch is read field by field from `data`:
/// texts, numbers and flags of the right type, and an avatar that is a text
/// or `null`.
#[verifier::rlimit(40)]
pub proof fn law_patch_under_data(text: Seq<char>)
    requires
        json_text(text, "/patch"@) is None,
        json_text(text, "/data"@) is Some,
    ensures
        control_patch(text) matches Some(patch) && {
            &&& patch.id == json_str(text, "/data/id"@)
            &&& patch.username == json_str(text, "/data/username"@)
            &&& patch.global_name == json_str(text, "/data/global_name"@)
            &&& patch.discriminator == json_str(text, "/data/discriminator"@)
            &&& patch.bot == json_bool(text, "/data/bot"@)
            &&& patch.flags == json_u64(text, "/data/flags"@)
            &&& patch.premium_type == json_u64(text, "/data/premium_type"@)
            &&& json_str(text, "/data/avatar"@) is Some ==> patch.avatar == Some(
                json_str(text, "/data/avatar"@),
            )
            &&& json_str(text, "/data/avatar"@) is None && json_text(text, "/data/avatar"@) == Some(
                "null"@,
            ) ==> patch.avatar == Some(None::<Seq<char>>)
            &&& json_str(text, "/data/avatar"@) is None && json_text(text, "/data/avatar"@) != Some(
                "null"@,
            ) ==> patch.avatar is None
        },
{
    reveal_strlit("/data");
    reveal_strlit("/data/id");
    reveal_strlit("/id");
    assert("/data"@ + "/id"@ =~= "/data/id"@);
    reveal_strlit("/data/username");
    reveal_strlit("/username");
    assert("/data"@ + "/username"@ =~= "/data/username"@);
    reveal_strlit("/data/global_name");
    reveal_strlit("/global_name");
    assert("/data"@ + "/global_name"@ =~= "/data/global_name"@);
    reveal_strlit("/data/discriminator");
    reveal_strlit("/discriminator");
    assert("/data"@ + "/discriminator"@ =~= "/data/discriminator"@);
    reveal_strlit("/data/bot");
    reveal_strlit("/bot");
    assert("/data"@ + "/bot"@ =~= "/data/bot"@);
    reveal_strlit("/data/flags");
    reveal_strlit("/flags");
    assert("/data"@ + "/flags"@ =~= "/data/flags"@);
    reveal_strlit("/data/premium_type");
    reveal_strlit("/premium_type");
    assert("/data"@ + "/premium_type"@ =~= "/data/premium_type"@);
    reveal_strlit("/data/avatar");
    reveal_strlit("/avatar");
    assert("/data"@ + "/avatar"@ =~= "/data/avatar"@);
}

/// A message with neither has no patch.
pub proof fn law_no_patch(text: Seq<char>)
    ensures
        control_patch(text) is None <==> json_text(text, "/patch"@) is None && json_text(
            text,
            "/data"@,
        ) is None,
{
}

/// A greeting carries the configuration that clients expect, and no nonce.
#[verifier::rlimit(40)]
pub proof fn law_greeting_carries_config(user: UserView)
    ensures
        holds(
            ready_json(user),
            "\"config\":{\"api_endpoint\":\"//discord.com/api\",\"cdn_host\":\"cdn.discordapp.com\",\"environment\":\"production\"}},\"nonce\":null}"@,
        ),
{
    let t = ready_json(user);
    reveal_strlit(
        "\"config\":{\"api_endpoint\":\"//discord.com/api\",\"cdn_host\":\"cdn.discordapp.com\",\"environment\":\"production\"}},\"nonce\":null}",
    );
    reveal_strlit(
        ",\"config\":{\"api_endpoint\":\"//discord.com/api\",\"cdn_host\":\"cdn.discordapp.com\",\"environment\":\"production\"}},\"nonce\":null}",
    );
    let v =
        "\"config\":{\"api_endpoint\":\"//discord.com/api\",\"cdn_host\":\"cdn.discordapp.com\",\"environment\":\"production\"}},\"nonce\":null}"@;
    let p: int = t.len() - v.len();
    assert(t.subrange(p, p + v.len()) =~= v);
    assert(at(t, p, v));
}

} // verus!
