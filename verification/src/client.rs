//! The client side of the protocol: the errors an RPC can end in, reading
//! the header of a WebSocket reply, and checking an HTTP reply.
use vstd::prelude::*;

use crate::mime::{mime_text, MimeType};
use crate::protocol::{
    lemma_reply_round_trip, parse_client_id, parse_usize, read_client_id, read_usize,
    reply_header, ClientId, VERSION,
};
use crate::text::{concat, decimal, decimal_text, owned, str_eq};

verus! {

/// The errors that can happen during an RPC.
///
/// Note: this may contain sensitive information such as URLs or argument
/// names and values.
#[derive(Debug, Clone)]
pub enum Error {
    /// The result could not be deserialized.
    DeserializeResult(String),
    /// The request could not be sent.
    Send(String),
    /// The response could not be received.
    Receive(String),
    /// The response has a content type other than the one asked for.
    UnknownContentType(String),
}

impl Error {
    /// A send error, described by `e`.
    pub fn send<T: core::fmt::Display>(e: T) -> (r: Self)
        ensures
            r matches Error::Send(s) && vstd::string::to_string_from_display_ensures(&e, s),
    {
        Error::Send(e.to_string())
    }

    /// A receive error, described by `e`.
    pub fn receive<T: core::fmt::Display>(e: T) -> (r: Self)
        ensures
            r matches Error::Receive(s) && vstd::string::to_string_from_display_ensures(&e, s),
    {
        Error::Receive(e.to_string())
    }

    /// A deserialization error, described by `e`.
    pub fn deserialize_result<T: core::fmt::Display>(e: T) -> (r: Self)
        ensures
            r matches Error::DeserializeResult(s) && vstd::string::to_string_from_display_ensures(&e, s),
    {
        Error::DeserializeResult(e.to_string())
    }
}

/// The text of the error for a reply of an unknown protocol version.
pub open spec fn reply_version_text(got: usize) -> Seq<char> {
    "Unknown protocol version. Expected "@ + decimal(VERSION as nat) + ", got "@ + decimal(
        got as nat,
    ) + "."@
}

/// What reading the header of the WebSocket reply `message` gives: an error
/// where the protocol version or the client id cannot be read, an error
/// naming the version where it is not ours, and otherwise the client id of
/// the call or subscription that the reply answers, with the offset at
/// which the payload starts.
pub open spec fn reads_reply(message: Seq<u8>, r: Result<(ClientId, usize), Error>) -> bool {
    match parse_usize(message) {
        None => r matches Err(Error::DeserializeResult(_)),
        Some((v, n1)) => if v != VERSION {
            r matches Err(Error::Receive(m)) && m@ == reply_version_text(v)
        } else {
            match parse_client_id(message.skip(n1 as int)) {
                None => r matches Err(Error::DeserializeResult(_)),
                Some((id, n2)) => r == Ok::<(ClientId, usize), Error>((id, (n1 + n2) as usize)),
            }
        },
    }
}

/// Read the header of a WebSocket reply: the protocol version, which must
/// be ours, and the client id of the call or subscription it answers.
/// Gives the client id and the offset at which the payload starts.
pub fn decode_reply(message: &[u8]) -> (r: Result<(ClientId, usize), Error>)
    ensures
        reads_reply(message@, r),
{
    let (version, rest) = match read_usize(message) {
        Ok(x) => x,
        Err(e) => return Err(Error::deserialize_result(e)),
    };
    if version != VERSION {
        let m = owned("Unknown protocol version. Expected ");
        let m = concat(m, decimal_text(VERSION as u64).as_str());
        let m = concat(m, ", got ");
        let m = concat(m, decimal_text(version as u64).as_str());
        let m = concat(m, ".");
        return Err(Error::Receive(m));
    }
    match read_client_id(rest) {
        Ok((id, rest2)) => Ok((id, message.len() - rest2.len())),
        Err(e) => Err(Error::deserialize_result(e)),
    }
}

/// What a client reads of a reply that a server wrote with
/// `encode_reply_header`: the client id of the call, and the offset at which
/// exactly the payload that followed the header starts.
pub proof fn lemma_client_reads_reply(client_id: ClientId, payload: Seq<u8>)
    requires
        client_id.wf(),
    ensures
        ({
            let msg = reply_header(client_id) + payload;
            let n = reply_header(client_id).len();
            &&& reads_reply(msg, Ok((client_id, n as usize)))
            &&& msg.skip(n as int) == payload
        }),
{
    lemma_reply_round_trip(client_id, payload);
}

/// A WebSocket message as the client receives it.
pub enum Message {
    Text(String),
    Bytes(Vec<u8>),
}

/// Read a message that the client received: an error in receiving it is
/// passed on, a text message is refused, and a binary message is read as a
/// reply. Gives the client id that the reply answers, the offset of its
/// payload and the message.
pub fn read_reply(msg: core::result::Result<Message, Error>) -> (r: Result<(ClientId, usize, Vec<u8>), Error>)
    ensures
        match msg {
            Err(e) => r == Err::<(ClientId, usize, Vec<u8>), Error>(e),
            Ok(Message::Text(_)) => r matches Err(Error::Receive(m)) && m@
                == "Text messages are unsupported"@,
            Ok(Message::Bytes(b)) => match r {
                Ok((id, n, m)) => m@ == b@ && reads_reply(b@, Ok((id, n))),
                Err(e) => reads_reply(b@, Err(e)),
            },
        },
{
    match msg {
        Err(e) => Err(e),
        Ok(Message::Text(_)) => Err(Error::Receive(owned("Text messages are unsupported"))),
        Ok(Message::Bytes(message)) => match decode_reply(message.as_slice()) {
            Ok((id, n)) => Ok((id, n, message)),
            Err(e) => Err(e),
        },
    }
}

/// Where a reply goes.
#[derive(Debug, Clone, Copy, PartialEq, Eq, Structural)]
pub enum ReplyTarget {
    /// To the call waiting for it.
    Call,
    /// To the subscription it is an item of.
    Subscription,
}

/// Where a reply goes, given whether a call is waiting for its client id
/// and whether a subscription has it: a waiting call comes first, and a
/// reply that neither has is refused.
pub fn reply_target(call_waiting: bool, subscribed: bool) -> (r: Result<ReplyTarget, Error>)
    ensures
        call_waiting ==> r == Ok::<ReplyTarget, Error>(ReplyTarget::Call),
        !call_waiting && subscribed ==> r == Ok::<ReplyTarget, Error>(ReplyTarget::Subscription),
        !call_waiting && !subscribed ==> (r matches Err(Error::DeserializeResult(m)) && m@
            == "Unknown message id"@),
{
    if call_waiting {
        Ok(ReplyTarget::Call)
    } else if subscribed {
        Ok(ReplyTarget::Subscription)
    } else {
        Err(Error::DeserializeResult(owned("Unknown message id")))
    }
}

/// Why an HTTP reply is refused.
#[derive(Debug, Clone, PartialEq, Eq)]
pub enum ReplyError {
    /// The status is not a success (2xx).
    Http(u16),
    /// The reply names a content type other than the one asked for.
    UnknownContentType(String),
}

/// Check the status and content type of an HTTP reply to a call that asked
/// for `expected`: the status must be a success, and a content type, where
/// the reply names one, must be exactly `expected`.
pub fn check_reply(status: u16, content_type: Option<&str>, expected: MimeType) -> (r: Result<
    (),
    ReplyError,
>)
    ensures
        !(200 <= status < 300) ==> r == Err::<(), ReplyError>(ReplyError::Http(status)),
        200 <= status < 300 ==> match content_type {
            Some(t) => if t@ == mime_text(expected) {
                r is Ok
            } else {
                r matches Err(ReplyError::UnknownContentType(s)) && s@ == t@
            },
            None => r is Ok,
        },
{
    if !(200 <= status && status < 300) {
        return Err(ReplyError::Http(status));
    }
    match content_type {
        Some(t) => {
            if str_eq(t, expected.as_str()) {
                Ok(())
            } else {
                Err(ReplyError::UnknownContentType(owned(t)))
            }
        },
        None => Ok(()),
    }
}

/// The text of the receive error for a reply with an unsuccessful status.
pub open spec fn http_status_text(status: u16) -> Seq<char> {
    "HTTP error code "@ + decimal(status as nat)
}

/// The receive error for a reply with the HTTP status `status`.
pub fn http_error(status: u16) -> (r: Error)
    ensures
        r matches Error::Receive(m) && m@ == http_status_text(status),
{
    Error::Receive(concat(owned("HTTP error code "), decimal_text(status as u64).as_str()))
}

} // verus!
