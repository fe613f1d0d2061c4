//! Messages of the websocket servers.
use bytes::Bytes;
use rsrpc::message::Message;

#[test]
fn binary_clone_shares_allocation() {
    let msg = Message::Binary(Bytes::from(vec![1u8; 1024]));
    let cloned = msg.clone();
    let (Message::Binary(a), Message::Binary(b)) = (msg, cloned) else {
        panic!("expected Binary variants");
    };
    assert!(!a.is_empty());
    assert_eq!(a.as_ptr(), b.as_ptr());
}

#[test]
fn conversions_cover_common_inputs() {
    assert_eq!(Message::from("hi"), Message::Text("hi".to_owned()));
    assert_eq!(
        Message::from(String::from("hi")),
        Message::Text("hi".to_owned())
    );
    assert_eq!(
        Message::from(vec![1u8, 2]),
        Message::Binary(Bytes::from_static(&[1, 2]))
    );
    assert!(Message::from("").is_empty());
    assert_eq!(Message::from("hi").len(), 2);
}

/// Lengths are counted in bytes.
#[test]
fn lengths_are_bytes() {
    assert_eq!(Message::from("é").len(), 2);
    assert_eq!(Message::from(vec![0u8; 5]).len(), 5);
    assert!(Message::from(Vec::<u8>::new()).is_empty());
    assert!(!Message::from(vec![0u8]).is_empty());
}
