use arpy::client::{decode_reply, Error as ClientError};
use arpy::protocol::{
    encode_call_header, encode_reply_header, encode_subscription_header, ClientId,
    SubscriptionControl, VERSION,
};
use arpy::server::{decode_call, decode_client_id, decode_subscription, Error, WebSocketRouter};
use bincode::Options;
use slotmap::{DefaultKey, Key, KeyData, SlotMap};

fn opts() -> impl Options {
    bincode::DefaultOptions::new()
}

fn key_id(key: DefaultKey) -> ClientId {
    ClientId { ffi: key.data().as_ffi() }
}

#[test]
fn call_header_matches_bincode() {
    let mut keys: SlotMap<DefaultKey, ()> = SlotMap::new();
    let key = keys.insert(());
    let header = encode_call_header(b"add", key_id(key));

    let mut expected = Vec::new();
    opts().serialize_into(&mut expected, &VERSION).unwrap();
    opts().serialize_into(&mut expected, "add".as_bytes()).unwrap();
    opts().serialize_into(&mut expected, &key).unwrap();
    assert_eq!(header, expected);
}

#[test]
fn call_header_exact_bytes() {
    // index 300 takes the two-byte form, version 7 one byte.
    let id = ClientId { ffi: (7u64 << 32) | 300 };
    let header = encode_call_header(b"add", id);
    assert_eq!(header, vec![0, 3, b'a', b'd', b'd', 251, 0x2c, 0x01, 7]);
}

#[test]
fn reply_header_matches_bincode() {
    let key: DefaultKey = KeyData::from_ffi((3u64 << 32) | 70_000).into();
    let header = encode_reply_header(key_id(key));

    let mut expected = Vec::new();
    opts().serialize_into(&mut expected, &VERSION).unwrap();
    opts().serialize_into(&mut expected, &key).unwrap();
    assert_eq!(header, expected);
    assert_eq!(header, vec![0, 252, 0x70, 0x11, 0x01, 0x00, 3]);
}

#[test]
fn subscription_header_adds_control_word() {
    let id = ClientId { ffi: (1u64 << 32) | 2 };
    let new = encode_subscription_header(b"counter", id, SubscriptionControl::New);
    let update = encode_subscription_header(b"counter", id, SubscriptionControl::Update);
    let mut base = encode_call_header(b"counter", id);
    base.push(0);
    assert_eq!(new, base);
    base.pop();
    base.push(1);
    assert_eq!(update, base);
}

#[test]
fn server_reads_what_client_wrote() {
    let mut keys: SlotMap<DefaultKey, ()> = SlotMap::new();
    keys.insert(());
    let key = keys.insert(());
    let mut msg = encode_call_header(b"try-multiply", key_id(key));
    opts().serialize_into(&mut msg, &(2i32, 3i32)).unwrap();

    let (id, rest) = decode_call(&msg).unwrap();
    assert_eq!(id, b"try-multiply".to_vec());
    let (client_id, args) = decode_client_id(rest).unwrap();
    assert_eq!(client_id, key_id(key));
    let args: (i32, i32) = opts().deserialize(args).unwrap();
    assert_eq!(args, (2, 3));
}

#[test]
fn subscription_message_round_trip() {
    let id = ClientId { ffi: (5u64 << 32) | 9 };
    let mut msg = encode_subscription_header(b"add-n", id, SubscriptionControl::Update);
    msg.push(42);
    let (fid, rest) = decode_call(&msg).unwrap();
    assert_eq!(fid, b"add-n".to_vec());
    let (client_id, control, payload) = decode_subscription(rest).unwrap();
    assert_eq!(client_id, id);
    assert_eq!(control, SubscriptionControl::Update);
    assert_eq!(payload, &[42u8][..]);
}

#[test]
fn bad_control_word_is_a_deserialization_error() {
    let id = ClientId { ffi: (5u64 << 32) | 9 };
    let mut msg = encode_reply_header(id);
    msg.remove(0);
    msg.push(2);
    assert!(matches!(decode_subscription(&msg), Err(Error::Deserialization(_))));
}

#[test]
fn client_id_version_is_made_odd() {
    // An even version is written odd, as slotmap's `from_ffi` does.
    let header = encode_reply_header(ClientId { ffi: (4u64 << 32) | 1 });
    assert_eq!(header, vec![0, 1, 5]);
    let (id, offset) = decode_reply(&header).unwrap();
    assert_eq!(id, ClientId { ffi: (5u64 << 32) | 1 });
    assert_eq!(offset, 3);
}

#[test]
fn null_key_reads_with_version_one() {
    let header = vec![0, 252, 0xff, 0xff, 0xff, 0xff, 9];
    let (id, offset) = decode_reply(&header).unwrap();
    assert_eq!(id, ClientId { ffi: (1u64 << 32) | 0xffff_ffff });
    assert_eq!(offset, 7);
}

#[test]
fn reply_round_trip_gives_payload_offset() {
    let key: DefaultKey = KeyData::from_ffi((11u64 << 32) | 4).into();
    let mut msg = encode_reply_header(key_id(key));
    let header_len = msg.len();
    opts().serialize_into(&mut msg, &5i32).unwrap();
    let (id, offset) = decode_reply(&msg).unwrap();
    assert_eq!(id, key_id(key));
    assert_eq!(offset, header_len);
    let value: i32 = opts().deserialize(&msg[offset..]).unwrap();
    assert_eq!(value, 5);
}

#[test]
fn reply_of_unknown_version_is_refused() {
    let msg = vec![2, 1, 1];
    match decode_reply(&msg) {
        Err(ClientError::Receive(m)) => {
            assert_eq!(m, "Unknown protocol version. Expected 0, got 2.")
        }
        other => panic!("unexpected {other:?}"),
    }
}

#[test]
fn truncated_reply_is_a_deserialization_error() {
    assert!(matches!(decode_reply(&[]), Err(ClientError::DeserializeResult(_))));
    assert!(matches!(decode_reply(&[0, 251, 1]), Err(ClientError::DeserializeResult(_))));
}

#[test]
fn router_routes_by_function_id() {
    let router = WebSocketRouter::new().handle(b"add".to_vec(), 1).handle(b"try-multiply".to_vec(), 2);
    let id = ClientId { ffi: (1u64 << 32) | 0 };
    let mut msg = encode_call_header(b"try-multiply", id);
    msg.extend_from_slice(&[9, 9]);
    let (handler, rest) = router.route(&msg).unwrap();
    assert_eq!(*handler, 2);
    assert_eq!(rest, &[0, 1, 9, 9][..]);
}

#[test]
fn router_replaces_a_handler() {
    let router = WebSocketRouter::new().handle(b"add".to_vec(), 1).handle(b"add".to_vec(), 3);
    assert_eq!(router.get(b"add"), Some(&3));
    assert_eq!(router.get(b"sub"), None);
}

#[test]
fn router_unknown_function() {
    let router: WebSocketRouter<u8> = WebSocketRouter::new().handle(b"add".to_vec(), 1);
    let msg = encode_call_header(b"sub", ClientId { ffi: 1 << 32 });
    assert!(matches!(router.route(&msg), Err(Error::FunctionNotFound)));
}

#[test]
fn router_wrong_version() {
    let router: WebSocketRouter<u8> = WebSocketRouter::new();
    let msg = vec![251, 0x2c, 0x01, 0];
    match router.route(&msg) {
        Err(Error::Protocol(m)) => assert_eq!(m, "Unknown protocol version: Expected 0, got 300"),
        other => panic!("unexpected {:?}", other.map(|_| ())),
    }
}

#[test]
fn router_undecodable_message() {
    let router: WebSocketRouter<u8> = WebSocketRouter::new();
    assert!(matches!(router.route(&[]), Err(Error::Deserialization(_))));
    assert!(matches!(router.route(&[0, 5, b'a']), Err(Error::Deserialization(_))));
    assert!(matches!(router.route(&[255]), Err(Error::Deserialization(_))));
}
