use std::ops::ControlFlow;

use arpy::error_from::flatten;
use arpy::msg_id::msg_id;
use arpy::server::{handle_incoming, WsMessage};
use arpy::test_data::{add, add_n, counter, try_multiply, Add, AddN, Counter, TryMultiply};
use arpy::{ErrorFrom, MsgId};
use arpy::rpc::{flatten as legacy, ErrorFrom as Legacy};

#[test]
fn flatten_fallible_reply() {
    let ok: Result<Result<i32, String>, u8> = Ok(Ok(6));
    assert!(matches!(flatten(ok), Ok(6)));
    let app: Result<Result<i32, String>, u8> = Ok(Err("no".to_string()));
    assert!(matches!(flatten(app), Err(ErrorFrom::Application(e)) if e == "no"));
    let transport: Result<Result<i32, String>, u8> = Err(3);
    assert!(matches!(flatten(transport), Err(ErrorFrom::Transport(3))));
}

#[test]
fn flatten_legacy_reply() {
    let app: Result<Result<i32, ()>, u8> = Ok(Err(()));
    assert!(matches!(legacy(app), Err(Legacy::Server(()))));
    let conn: Result<Result<i32, ()>, u8> = Err(1);
    assert!(matches!(legacy(conn), Err(Legacy::Connection(1))));
}

#[test]
fn incoming_messages() {
    let e: Result<WsMessage, ()> = Err(());
    assert_eq!(handle_incoming(e), Some(ControlFlow::Break(())));
    assert_eq!(
        handle_incoming::<()>(Ok(WsMessage::Binary(vec![1, 2]))),
        Some(ControlFlow::Continue(vec![1, 2]))
    );
    assert_eq!(handle_incoming::<()>(Ok(WsMessage::Ping)), None);
    assert_eq!(handle_incoming::<()>(Ok(WsMessage::Pong)), None);
    assert_eq!(handle_incoming::<()>(Ok(WsMessage::Nop)), None);
    assert_eq!(handle_incoming::<()>(Ok(WsMessage::Text)), Some(ControlFlow::Break(())));
    assert_eq!(handle_incoming::<()>(Ok(WsMessage::Continuation)), Some(ControlFlow::Break(())));
    assert_eq!(handle_incoming::<()>(Ok(WsMessage::Close)), Some(ControlFlow::Break(())));
}

#[test]
fn message_ids_are_kebab_case() {
    assert_eq!(msg_id("Add"), Add::ID);
    assert_eq!(msg_id("TryMultiply"), TryMultiply::ID);
    assert_eq!(msg_id("Counter"), Counter::ID);
    assert_eq!(msg_id("AddN"), AddN::ID);
    assert_eq!(msg_id("MyFallibleFunction"), "my-fallible-function");
}

#[test]
fn test_data_functions() {
    assert_eq!(add(Add(2, 3)), 5);
    assert_eq!(try_multiply(TryMultiply(2, 3)), Ok(6));
    assert_eq!(counter(Counter(4)), (4..14).collect::<Vec<i32>>());
    assert_eq!(add_n(AddN(10), 5), 15);
}

#[test]
fn readme_add_example() {
    assert_eq!(add(Add(1, 2)), 3);
}
