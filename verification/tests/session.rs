use arpy::client::{read_reply, reply_target, Error as ClientError, Message, ReplyTarget};
use arpy::protocol::{encode_reply_header, ClientId};
use arpy::server::{
    socket_step, subscription_closed, update_target, Error, SocketAction, SocketEvent,
    SubscriptionTable,
};

#[test]
fn incoming_message_is_dispatched() {
    match socket_step(SocketEvent::Incoming(vec![1, 2, 3])) {
        SocketAction::Dispatch(msg) => assert_eq!(msg, vec![1, 2, 3]),
        _ => panic!("expected a dispatch"),
    }
}

#[test]
fn reply_is_sent() {
    match socket_step(SocketEvent::Outgoing(Ok(vec![9]))) {
        SocketAction::Send(bytes) => assert_eq!(bytes, vec![9]),
        _ => panic!("expected a send"),
    }
}

#[test]
fn handler_error_ends_session() {
    match socket_step(SocketEvent::Outgoing(Err(Error::FunctionNotFound))) {
        SocketAction::Fail(Error::FunctionNotFound) => {}
        _ => panic!("expected the session to fail"),
    }
}

#[test]
fn disconnect_and_close_stop_session() {
    assert!(matches!(socket_step(SocketEvent::SendFailed), SocketAction::Stop));
    assert!(matches!(socket_step(SocketEvent::Closed), SocketAction::Stop));
}

#[test]
fn binary_reply_is_read() {
    let id = ClientId { ffi: (3u64 << 32) | 7 };
    let mut msg = encode_reply_header(id);
    let header_len = msg.len();
    msg.extend_from_slice(&[42, 43]);
    let (read_id, offset, message) = read_reply(Ok(Message::Bytes(msg.clone()))).unwrap();
    assert_eq!(read_id, id);
    assert_eq!(offset, header_len);
    assert_eq!(message, msg);
    assert_eq!(&message[offset..], &[42, 43]);
}

#[test]
fn text_reply_is_refused() {
    match read_reply(Ok(Message::Text("hello".to_string()))) {
        Err(ClientError::Receive(m)) => assert_eq!(m, "Text messages are unsupported"),
        _ => panic!("expected a receive error"),
    }
}

#[test]
fn receive_error_is_passed_on() {
    match read_reply(Err(ClientError::Send("gone".to_string()))) {
        Err(ClientError::Send(m)) => assert_eq!(m, "gone"),
        _ => panic!("expected the error passed on"),
    }
}

#[test]
fn undecodable_binary_reply_is_refused() {
    assert!(matches!(read_reply(Ok(Message::Bytes(vec![]))), Err(ClientError::DeserializeResult(_))));
}

#[test]
fn reply_targets() {
    assert!(matches!(reply_target(true, true), Ok(ReplyTarget::Call)));
    assert!(matches!(reply_target(true, false), Ok(ReplyTarget::Call)));
    assert!(matches!(reply_target(false, true), Ok(ReplyTarget::Subscription)));
    match reply_target(false, false) {
        Err(ClientError::DeserializeResult(m)) => assert_eq!(m, "Unknown message id"),
        _ => panic!("expected an unknown id"),
    }
}

#[test]
fn update_to_unknown_subscription_is_refused() {
    assert_eq!(update_target(Some(5u8), ClientId { ffi: 1 << 32 }).unwrap(), 5);
    match update_target::<u8>(None, ClientId { ffi: (3u64 << 32) | 7 }) {
        Err(Error::Protocol(m)) => assert_eq!(m, "Unknown subscription DefaultKey(7v3)"),
        _ => panic!("expected a protocol error"),
    }
    // The version is made odd, as a slot map key's always is.
    match update_target::<u8>(None, ClientId { ffi: (4u64 << 32) | 2 }) {
        Err(Error::Protocol(m)) => assert_eq!(m, "Unknown subscription DefaultKey(2v5)"),
        _ => panic!("expected a protocol error"),
    }
    match update_target::<u8>(None, ClientId { ffi: (1u64 << 32) | 0xffff_ffff }) {
        Err(Error::Protocol(m)) => assert_eq!(m, "Unknown subscription DefaultKey(null)"),
        _ => panic!("expected a protocol error"),
    }
    match subscription_closed("receiver gone") {
        Error::Protocol(m) => assert_eq!(m, "Subcription closed: receiver gone"),
        _ => panic!("expected a protocol error"),
    }
}

#[test]
fn subscription_table_routes_updates_while_running() {
    let id = ClientId { ffi: (1u64 << 32) | 4 };
    let other = ClientId { ffi: (1u64 << 32) | 5 };
    let mut table = SubscriptionTable::new();
    assert!(matches!(table.target(id), Err(Error::Protocol(_))));
    table.start(id, "first");
    table.start(other, "other");
    assert_eq!(table.target(id).unwrap(), &"first");
    // A new subscription under the same id takes the old one's place.
    table.start(id, "second");
    assert_eq!(table.target(id).unwrap(), &"second");
    table.end(id);
    match table.target(id) {
        Err(Error::Protocol(m)) => assert_eq!(m, "Unknown subscription DefaultKey(4v1)"),
        _ => panic!("expected the update to be refused"),
    }
    assert_eq!(table.target(other).unwrap(), &"other");
}
