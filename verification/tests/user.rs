//! The reported identity.
use rsrpc::user::{
    apply_control, current_user_update, handle_bridge_control, AvatarPatch, RpcUser, UserPatch,
};

fn json(text: &str) -> serde_json::Value {
    serde_json::from_str(text).expect("json")
}

fn nothing() -> UserPatch {
    UserPatch {
        id: None,
        username: None,
        global_name: None,
        discriminator: None,
        avatar: AvatarPatch::Keep,
        bot: None,
        flags: None,
        premium_type: None,
    }
}

#[test]
fn the_default_identity_is_arrpc() {
    let user = json(&RpcUser::default().to_json());
    assert_eq!(user["id"], "1045800378228281345");
    assert_eq!(user["username"], "arRPC");
    assert!(user["avatar"].is_null());
    let ready = json(&RpcUser::default().ready_payload());
    assert_eq!(ready["cmd"], "DISPATCH");
    assert_eq!(ready["evt"], "READY");
    assert_eq!(ready["data"]["v"], 1);
    assert_eq!(ready["data"]["user"], user);
    assert_eq!(
        ready["data"]["config"]["api_endpoint"],
        "//discord.com/api"
    );
    assert!(ready["nonce"].is_null());
}

#[test]
fn blank_texts_are_ignored() {
    let mut user = RpcUser::default();
    let mut patch = nothing();
    patch.username = Some("  \t".to_string());
    patch.global_name = Some("Web \"Name\"".to_string());
    patch.avatar = AvatarPatch::Replace("hash".to_string());
    patch.bot = Some(true);
    patch.flags = Some(7);
    user.patch(&patch);
    assert_eq!(user.username, "arRPC");
    assert_eq!(user.global_name, "Web \"Name\"");
    assert_eq!(user.avatar.as_deref(), Some("hash"));
    let shown = json(&user.to_json());
    assert_eq!(shown["global_name"], "Web \"Name\"");
    assert_eq!(shown["flags"], 7);
    assert_eq!(shown["bot"], true);
    let mut clear = nothing();
    clear.avatar = AvatarPatch::Clear;
    user.patch(&clear);
    assert!(user.avatar.is_none());
    let before = user.clone();
    user.patch(&nothing());
    assert!(user.same_as(&before));
}

#[test]
fn configured_identities_keep_defaults() {
    let user = RpcUser::configured(
        None,
        Some("me".to_string()),
        Some(" ".to_string()),
        None,
        Some("  ".to_string()),
    );
    assert_eq!(user.username, "me");
    assert_eq!(user.global_name, "arRPC");
    assert!(user.avatar.is_none());
    let user = RpcUser::configured(None, None, None, None, Some("pic".to_string()));
    assert_eq!(user.avatar.as_deref(), Some("pic"));
}

#[test]
fn controls_acknowledge_and_tell_of_changes() {
    let startup = RpcUser::default();
    let mut user = RpcUser::default();
    let mut patch = nothing();
    patch.username = Some("web".to_string());
    let (ack, changed) = apply_control(&mut user, &startup, "SET_USER", "7", Some(patch));
    let ack = json(&ack);
    assert_eq!(ack["type"], "SET_USER_ACK");
    assert_eq!(ack["nonce"], 7);
    assert_eq!(ack["data"]["success"], true);
    assert_eq!(ack["data"]["user"]["username"], "web");
    let update = json(&current_user_update(&changed.expect("changed")));
    assert_eq!(update["evt"], "CURRENT_USER_UPDATE");
    assert_eq!(update["data"]["username"], "web");
    let (_, changed) = apply_control(&mut user, &startup, "RESET_USER", "null", None);
    assert!(changed.is_some());
    assert!(user.same_as(&startup));
}

#[test]
fn patches_are_read_from_either_place() {
    let startup = RpcUser::default();
    let mut user = RpcUser::default();
    let set = r#"{"type":"SET_USER","data":{"username":"d","avatar":"a","flags":3}}"#;
    assert!(handle_bridge_control(&mut user, &startup, set).is_some());
    assert_eq!(user.username, "d");
    assert_eq!(user.flags, 3);
    let set = r#"{"type":"SET_USER","patch":{"avatar":null},"data":{"username":"x"}}"#;
    assert!(handle_bridge_control(&mut user, &startup, set).is_some());
    assert!(user.avatar.is_none());
    assert_eq!(user.username, "d");
    assert!(handle_bridge_control(&mut user, &startup, r#"{"type":"OTHER"}"#).is_none());
    assert!(handle_bridge_control(&mut user, &startup, "hello").is_none());
    assert_eq!(user.username, "d");
}
