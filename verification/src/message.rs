//! Wire message with cheap clone for binary payloads.
use bytes::Bytes;
use vstd::prelude::*;
use vstd::std_specs::convert::FromSpecImpl;
use vstd::utf8::encode_utf8;

verus! {

/// The reference-counted byte buffer of the `bytes` crate.
#[verifier::external_type_specification]
#[verifier::external_body]
pub struct ExBytes(bytes::Bytes);

/// The bytes that a buffer holds.
pub uninterp spec fn bytes_contents(b: Bytes) -> Seq<u8>;

/// `Bytes::from(Vec<u8>)`: the buffer holds exactly the bytes of the vector.
#[verifier::external_body]
fn bytes_from_vec(v: Vec<u8>) -> (r: Bytes)
    ensures
        bytes_contents(r) == v@,
{
    Bytes::from(v)
}

/// `Bytes::len`: how many bytes the buffer holds.
#[verifier::external_body]
fn bytes_len(b: &Bytes) -> (r: usize)
    ensures
        r == bytes_contents(*b).len(),
{
    b.len()
}

/// `Bytes::clone`: another handle on the same bytes.
#[verifier::external_body]
fn bytes_clone(b: &Bytes) -> (r: Bytes)
    ensures
        bytes_contents(r) == bytes_contents(*b),
{
    b.clone()
}

/// Model of a [`Message`].
pub enum MessageView {
    Text(Seq<char>),
    Binary(Seq<u8>),
}

/// An incoming or outgoing message. Clones of `Binary` share the allocation.
#[derive(Debug, PartialEq, Eq)]
#[non_exhaustive]
pub enum Message {
    /// UTF-8 text message.
    Text(String),
    /// Binary message.
    Binary(Bytes),
}

impl View for Message {
    type V = MessageView;

    open spec fn view(&self) -> MessageView {
        match *self {
            Message::Text(s) => MessageView::Text(s@),
            Message::Binary(b) => MessageView::Binary(bytes_contents(b)),
        }
    }
}

impl Clone for Message {
    fn clone(&self) -> (r: Self)
        ensures
            r@ == self@,
    {
        match self {
            Message::Text(s) => Message::Text(s.clone()),
            Message::Binary(b) => Message::Binary(bytes_clone(b)),
        }
    }
}

impl Message {
    /// A text message.
    pub fn text(s: &str) -> (r: Self)
        ensures
            r@ == MessageView::Text(s@),
    {
        Message::Text(s.to_owned())
    }

    /// A binary message.
    pub fn binary(v: Vec<u8>) -> (r: Self)
        ensures
            r@ == MessageView::Binary(v@),
    {
        Message::Binary(bytes_from_vec(v))
    }

    /// Length in bytes of the payload.
    pub fn len(&self) -> (r: usize)
        ensures
            match self@ {
                MessageView::Text(s) => r == encode_utf8(s).len() as usize,
                MessageView::Binary(b) => r == b.len(),
            },
    {
        match self {
            Message::Text(s) => s.as_str().len(),
            Message::Binary(b) => bytes_len(b),
        }
    }

    /// True when the payload is empty.
    pub fn is_empty(&self) -> (r: bool)
        ensures
            r == match self@ {
                MessageView::Text(s) => s.len() == 0,
                MessageView::Binary(b) => b.len() == 0,
            },
    {
        match self {
            Message::Text(s) => s.as_str().is_empty(),
            Message::Binary(b) => bytes_len(b) == 0,
        }
    }
}

impl FromSpecImpl<String> for Message {
    open spec fn obeys_from_spec() -> bool {
        true
    }

    open spec fn from_spec(s: String) -> Message {
        Message::Text(s)
    }
}

impl From<String> for Message {
    fn from(s: String) -> (r: Self) {
        Message::Text(s)
    }
}

impl FromSpecImpl<Bytes> for Message {
    open spec fn obeys_from_spec() -> bool {
        true
    }

    open spec fn from_spec(b: Bytes) -> Message {
        Message::Binary(b)
    }
}

impl From<Bytes> for Message {
    fn from(b: Bytes) -> (r: Self) {
        Message::Binary(b)
    }
}

impl FromSpecImpl<&str> for Message {
    open spec fn obeys_from_spec() -> bool {
        false
    }

    open spec fn from_spec(s: &str) -> Message {
        arbitrary()
    }
}

impl From<&str> for Message {
    fn from(s: &str) -> (r: Self)
        ensures
            r@ == MessageView::Text(s@),
    {
        Message::text(s)
    }
}

impl FromSpecImpl<Vec<u8>> for Message {
    open spec fn obeys_from_spec() -> bool {
        false
    }

    open spec fn from_spec(v: Vec<u8>) -> Message {
        arbitrary()
    }
}

impl From<Vec<u8>> for Message {
    fn from(v: Vec<u8>) -> (r: Self)
        ensures
            r@ == MessageView::Binary(v@),
    {
        Message::binary(v)
    }
}

} // verus!
