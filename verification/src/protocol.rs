//! The WebSocket wire format shared by clients and servers.
//!
//! Every message starts with a header written with `bincode`'s default
//! options (little endian, variable-length integers):
//!
//! - a call: protocol version, function id bytes, client id, then the
//!   arguments;
//! - a subscription message: a call header followed by a control word;
//! - a reply: protocol version, client id, then the payload.
//!
//! The spec functions below describe those bytes; the exec functions write
//! and read them through `bincode`, and the lemmas at the end show that a
//! header that one side writes is read back unchanged by the other.
use bincode::Options;
use vstd::prelude::*;

verus! {

/// The protocol version that this library writes and accepts.
pub const VERSION: usize = 0;

/// Uniquely identify a message type.
pub trait MsgId {
    /// `ID` should be a short identifier to uniquely identify a message
    /// type on a server.
    const ID: &'static str;
}

#[verifier::external_type_specification]
#[verifier::external_body]
pub struct ExBincodeErrorKind(bincode::ErrorKind);

// ---------------------------------------------------------------------------
// Integers as bytes
// ---------------------------------------------------------------------------

/// `256` to the power `k`.
pub open spec fn pow256(k: nat) -> nat
    decreases k,
{
    if k == 0 {
        1
    } else {
        256 * pow256((k - 1) as nat)
    }
}

/// The number that little-endian bytes stand for.
pub open spec fn le_value(s: Seq<u8>) -> nat
    decreases s.len(),
{
    if s.len() == 0 {
        0
    } else {
        s[0] as nat + 256 * le_value(s.drop_first())
    }
}

/// The `k` low bytes of `n`, least significant first.
pub open spec fn le_bytes(n: nat, k: nat) -> Seq<u8>
    decreases k,
{
    if k == 0 {
        Seq::empty()
    } else {
        seq![(n % 256) as u8] + le_bytes(n / 256, (k - 1) as nat)
    }
}

/// bincode's variable-length encoding of an unsigned integer: values up to
/// 250 in one byte, larger ones as a marker byte (251, 252, 253) followed by
/// the value in 2, 4 or 8 little-endian bytes.
pub open spec fn varint(n: u64) -> Seq<u8> {
    if n <= 250 {
        seq![n as u8]
    } else if n <= 0xffff {
        seq![251u8] + le_bytes(n as nat, 2)
    } else if n <= 0xffff_ffff {
        seq![252u8] + le_bytes(n as nat, 4)
    } else {
        seq![253u8] + le_bytes(n as nat, 8)
    }
}

/// How bincode reads a variable-length integer from the start of `s`: the
/// value and the number of bytes it takes, or `None` where the bytes run out
/// or the marker byte is 254 or 255.
pub open spec fn parse_varint(s: Seq<u8>) -> Option<(nat, nat)> {
    if s.len() == 0 {
        None
    } else if s[0] <= 250 {
        Some((s[0] as nat, 1))
    } else if s[0] == 251 {
        if s.len() >= 3 {
            Some((le_value(s.subrange(1, 3)), 3))
        } else {
            None
        }
    } else if s[0] == 252 {
        if s.len() >= 5 {
            Some((le_value(s.subrange(1, 5)), 5))
        } else {
            None
        }
    } else if s[0] == 253 {
        if s.len() >= 9 {
            Some((le_value(s.subrange(1, 9)), 9))
        } else {
            None
        }
    } else {
        None
    }
}

/// Reading a `usize`: a variable-length integer that fits in a `usize`.
pub open spec fn parse_usize(s: Seq<u8>) -> Option<(usize, nat)> {
    match parse_varint(s) {
        Some((v, n)) => if v <= usize::MAX {
            Some((v as usize, n))
        } else {
            None
        },
        None => None,
    }
}

/// Reading a `u32`: a variable-length integer that fits in a `u32`.
pub open spec fn parse_u32(s: Seq<u8>) -> Option<(u32, nat)> {
    match parse_varint(s) {
        Some((v, n)) => if v <= u32::MAX {
            Some((v as u32, n))
        } else {
            None
        },
        None => None,
    }
}

/// A byte string: its length, then its bytes.
pub open spec fn bytes_encoding(b: Seq<u8>) -> Seq<u8> {
    varint(b.len() as u64) + b
}

/// Reading a byte string from the start of `s`.
pub open spec fn parse_bytes(s: Seq<u8>) -> Option<(Seq<u8>, nat)> {
    match parse_usize(s) {
        Some((len, n)) => if n + len <= s.len() {
            Some((s.subrange(n as int, n + len), (n + len) as nat))
        } else {
            None
        },
        None => None,
    }
}

// ---------------------------------------------------------------------------
// Client ids
// ---------------------------------------------------------------------------

/// The id that a client gives one call or subscription, so that replies can
/// be matched to it.
///
/// It is a key of a `slotmap::SlotMap`, held as the `u64` of
/// `KeyData::as_ffi`: the key's version in the high 32 bits and its index in
/// the low 32 bits.
#[derive(Copy, Clone, Debug, PartialEq, Eq, Hash, Structural)]
pub struct ClientId {
    pub ffi: u64,
}

/// `v`, made odd by setting its lowest bit.
pub open spec fn odd(v: nat) -> nat {
    if v % 2 == 0 {
        v + 1
    } else {
        v
    }
}

impl ClientId {
    /// The slot index of the key.
    pub open spec fn index(self) -> nat {
        self.ffi as nat % 0x1_0000_0000
    }

    /// The version of the key.
    pub open spec fn version(self) -> nat {
        self.ffi as nat / 0x1_0000_0000
    }

    /// A key that a slot map can hand out: its version is odd, and the
    /// null index `u32::MAX` only comes with version 1.
    pub open spec fn wf(self) -> bool {
        &&& self.version() % 2 == 1
        &&& self.index() == u32::MAX ==> self.version() == 1
    }
}

/// The bytes of a client id: its index, then its version made odd.
pub open spec fn client_id_encoding(id: ClientId) -> Seq<u8> {
    varint(id.index() as u64) + varint(odd(id.version()) as u64)
}

/// Reading a client id: an index and a version, each a `u32`. The version
/// is made odd, and becomes 1 with the null index.
pub open spec fn parse_client_id(s: Seq<u8>) -> Option<(ClientId, nat)> {
    match parse_u32(s) {
        Some((idx, n1)) => match parse_u32(s.skip(n1 as int)) {
            Some((ver, n2)) => {
                let v: nat = if idx == u32::MAX {
                    1
                } else {
                    odd(ver as nat)
                };
                Some((ClientId { ffi: (v * 0x1_0000_0000 + idx) as u64 }, n1 + n2))
            },
            None => None,
        },
        None => None,
    }
}

// ---------------------------------------------------------------------------
// Subscription control words
// ---------------------------------------------------------------------------

/// What a subscription message asks of the server.
#[derive(Copy, Clone, Debug, PartialEq, Eq, Structural)]
pub enum SubscriptionControl {
    /// Start a subscription; the service's arguments follow.
    New,
    /// Send an update to a running subscription; the update follows.
    Update,
}

impl SubscriptionControl {
    /// The variant index that serde gives the control word.
    pub open spec fn index(self) -> u32 {
        match self {
            SubscriptionControl::New => 0,
            SubscriptionControl::Update => 1,
        }
    }
}

/// The bytes of a control word: its variant index.
pub open spec fn control_encoding(c: SubscriptionControl) -> Seq<u8> {
    varint(c.index() as u64)
}

/// Reading a control word: a `u32` variant index, 0 or 1.
pub open spec fn parse_control(s: Seq<u8>) -> Option<(SubscriptionControl, nat)> {
    match parse_u32(s) {
        Some((i, n)) => if i == 0 {
            Some((SubscriptionControl::New, n))
        } else if i == 1 {
            Some((SubscriptionControl::Update, n))
        } else {
            None
        },
        None => None,
    }
}

// ---------------------------------------------------------------------------
// Message headers
// ---------------------------------------------------------------------------

/// The header of a call to the function `id`.
pub open spec fn call_header(id: Seq<u8>, client_id: ClientId) -> Seq<u8> {
    varint(VERSION as u64) + bytes_encoding(id) + client_id_encoding(client_id)
}

/// The header of a subscription message to the service `id`.
pub open spec fn subscription_header(
    id: Seq<u8>,
    client_id: ClientId,
    control: SubscriptionControl,
) -> Seq<u8> {
    call_header(id, client_id) + control_encoding(control)
}

/// The header of a reply to the call or subscription `client_id`.
pub open spec fn reply_header(client_id: ClientId) -> Seq<u8> {
    varint(VERSION as u64) + client_id_encoding(client_id)
}

// ---------------------------------------------------------------------------
// bincode
// ---------------------------------------------------------------------------

/// Serializes a `u64` with `bincode::Options::serialize` under
/// `DefaultOptions`.
///
/// The contract claims the bytes of bincode's variable-length integer
/// encoding (`serialize_varint`), which bincode also uses for `usize` and
/// `u32` values, such as a protocol version or a variant index; serializing
/// an integer into a `Vec` does not fail.
#[verifier::external_body]
fn encode_varint(v: u64) -> (r: Vec<u8>)
    ensures
        r@ == varint(v),
{
    match bincode::DefaultOptions::new().serialize(&v) {
        Ok(bytes) => bytes,
        Err(_) => Vec::new(),
    }
}

/// Serializes a byte slice with `bincode::Options::serialize` under
/// `DefaultOptions`.
///
/// The contract claims serde's sequence form as bincode writes it: the
/// length as a variable-length integer, then each byte as it is.
#[verifier::external_body]
fn encode_bytes(b: &[u8]) -> (r: Vec<u8>)
    ensures
        r@ == bytes_encoding(b@),
{
    match bincode::DefaultOptions::new().serialize(b) {
        Ok(bytes) => bytes,
        Err(_) => Vec::new(),
    }
}

/// Serializes the `slotmap::DefaultKey` that `KeyData::from_ffi` makes of
/// a client id, with `bincode::Options::serialize` under `DefaultOptions`.
///
/// The contract claims slotmap's serde form of a key (a struct of the index
/// and the version, each a `u32`), where `from_ffi` has taken the low 32
/// bits as the index and set the lowest bit of the high 32 bits.
#[verifier::external_body]
fn encode_client_id(id: ClientId) -> (r: Vec<u8>)
    ensures
        r@ == client_id_encoding(id),
{
    let key: slotmap::DefaultKey = slotmap::KeyData::from_ffi(id.ffi).into();
    match bincode::DefaultOptions::new().serialize(&key) {
        Ok(bytes) => bytes,
        Err(_) => Vec::new(),
    }
}

/// Reads a `usize` from the start of `input` with
/// `bincode::Options::deserialize_from` under `DefaultOptions` with
/// trailing bytes allowed, and hands back the bytes that were not read.
///
/// The contract claims bincode's `deserialize_varint` followed by serde's
/// range check for `usize`; reading from a slice fails only where the
/// bytes run out.
#[verifier::external_body]
pub(crate) fn read_usize<'a>(input: &'a [u8]) -> (r: Result<(usize, &'a [u8]), bincode::Error>)
    ensures
        match parse_usize(input@) {
            Some((v, n)) => r matches Ok((x, rest)) && x == v && rest@ == input@.skip(n as int),
            None => r is Err,
        },
{
    let mut reader = input;
    match bincode::DefaultOptions::new().allow_trailing_bytes().deserialize_from::<_, usize>(
        &mut reader,
    ) {
        Ok(v) => Ok((v, reader)),
        Err(e) => Err(e),
    }
}

/// Reads a `Vec<u8>` from the start of `input` with
/// `bincode::Options::deserialize_from` under `DefaultOptions` with
/// trailing bytes allowed, and hands back the bytes that were not read.
///
/// The contract claims serde's sequence form as bincode reads it: a length
/// that fits in a `usize`, then that many single bytes.
#[verifier::external_body]
pub(crate) fn read_bytes<'a>(input: &'a [u8]) -> (r: Result<(Vec<u8>, &'a [u8]), bincode::Error>)
    ensures
        match parse_bytes(input@) {
            Some((b, n)) => r matches Ok((x, rest)) && x@ == b && rest@ == input@.skip(n as int),
            None => r is Err,
        },
{
    let mut reader = input;
    match bincode::DefaultOptions::new().allow_trailing_bytes().deserialize_from::<_, Vec<u8>>(
        &mut reader,
    ) {
        Ok(v) => Ok((v, reader)),
        Err(e) => Err(e),
    }
}

/// Reads a `slotmap::DefaultKey` from the start of `input` with
/// `bincode::Options::deserialize_from` under `DefaultOptions` with
/// trailing bytes allowed, turns it into a client id with
/// `KeyData::as_ffi`, and hands back the bytes that were not read.
///
/// The contract claims slotmap's `Deserialize` for `KeyData`: an index and
/// a version, each a `u32`; the version is set to 1 with the null index and
/// its lowest bit is set.
#[verifier::external_body]
pub(crate) fn read_client_id<'a>(input: &'a [u8]) -> (r: Result<(ClientId, &'a [u8]), bincode::Error>)
    ensures
        match parse_client_id(input@) {
            Some((id, n)) => r matches Ok((x, rest)) && x == id && rest@ == input@.skip(n as int),
            None => r is Err,
        },
{
    let mut reader = input;
    match bincode::DefaultOptions::new().allow_trailing_bytes().deserialize_from::<
        _,
        slotmap::DefaultKey,
    >(&mut reader) {
        Ok(key) => Ok((ClientId { ffi: slotmap::Key::data(&key).as_ffi() }, reader)),
        Err(e) => Err(e),
    }
}

/// Reads a control word from the start of `input` with
/// `bincode::Options::deserialize_from` under `DefaultOptions` with
/// trailing bytes allowed, and hands back the bytes that were not read.
///
/// It reads the word as a `Result<(), ()>`, which serde treats as an enum
/// of two unit variants, as it does `SubscriptionControl`: a `u32` variant
/// index, where an index other than 0 or 1 is an error. `Ok` is variant 0
/// and `Err` variant 1.
#[verifier::external_body]
pub(crate) fn read_control<'a>(input: &'a [u8]) -> (r: Result<
    (SubscriptionControl, &'a [u8]),
    bincode::Error,
>)
    ensures
        match parse_control(input@) {
            Some((c, n)) => r matches Ok((x, rest)) && x == c && rest@ == input@.skip(n as int),
            None => r is Err,
        },
{
    let mut reader = input;
    match bincode::DefaultOptions::new().allow_trailing_bytes().deserialize_from::<
        _,
        Result<(), ()>,
    >(&mut reader) {
        Ok(Ok(())) => Ok((SubscriptionControl::New, reader)),
        Ok(Err(())) => Ok((SubscriptionControl::Update, reader)),
        Err(e) => Err(e),
    }
}

// ---------------------------------------------------------------------------
// Writing headers
// ---------------------------------------------------------------------------

/// The header of a call to the function `id`; the caller appends the
/// serialized arguments.
pub fn encode_call_header(id: &[u8], client_id: ClientId) -> (r: Vec<u8>)
    ensures
        r@ == call_header(id@, client_id),
{
    let mut msg = encode_varint(VERSION as u64);
    let mut id_bytes = encode_bytes(id);
    let mut key = encode_client_id(client_id);
    msg.append(&mut id_bytes);
    msg.append(&mut key);
    msg
}

/// The header of a subscription message to the service `id`; the caller
/// appends the serialized service or update.
pub fn encode_subscription_header(
    id: &[u8],
    client_id: ClientId,
    control: SubscriptionControl,
) -> (r: Vec<u8>)
    ensures
        r@ == subscription_header(id@, client_id, control),
{
    let mut msg = encode_call_header(id, client_id);
    let index: u32 = match control {
        SubscriptionControl::New => 0,
        SubscriptionControl::Update => 1,
    };
    let mut word = encode_varint(index as u64);
    msg.append(&mut word);
    msg
}

/// The header of a reply to `client_id`; the caller appends the serialized
/// result or item.
pub fn encode_reply_header(client_id: ClientId) -> (r: Vec<u8>)
    ensures
        r@ == reply_header(client_id),
{
    let mut msg = encode_varint(VERSION as u64);
    let mut key = encode_client_id(client_id);
    msg.append(&mut key);
    msg
}

// ---------------------------------------------------------------------------
// Laws
// ---------------------------------------------------------------------------

proof fn lemma_pow256_values()
    ensures
        pow256(2) == 0x1_0000,
        pow256(4) == 0x1_0000_0000,
        pow256(8) == 0x1_0000_0000_0000_0000,
{
    reveal_with_fuel(pow256, 9);
}

/// Little-endian bytes of a number that fits read back as that number.
pub proof fn lemma_le_round_trip(n: nat, k: nat)
    requires
        n < pow256(k),
    ensures
        le_bytes(n, k).len() == k,
        le_value(le_bytes(n, k)) == n,
    decreases k,
{
    if k > 0 {
        let p = pow256((k - 1) as nat);
        assert(n / 256 < p) by (nonlinear_arith)
            requires
                n < 256 * p,
        ;
        lemma_le_round_trip(n / 256, (k - 1) as nat);
        let s = le_bytes(n, k);
        assert(s.drop_first() =~= le_bytes(n / 256, (k - 1) as nat));
    }
}

/// A variable-length integer reads back as the value that was written, and
/// takes exactly its own bytes, whatever follows it.
pub proof fn lemma_varint_round_trip(n: u64, rest: Seq<u8>)
    ensures
        parse_varint(varint(n) + rest) == Some((n as nat, varint(n).len())),
{
    lemma_pow256_values();
    let s = varint(n) + rest;
    if n <= 250 {
    } else if n <= 0xffff {
        lemma_le_round_trip(n as nat, 2);
        assert(s.subrange(1, 3) =~= le_bytes(n as nat, 2));
    } else if n <= 0xffff_ffff {
        lemma_le_round_trip(n as nat, 4);
        assert(s.subrange(1, 5) =~= le_bytes(n as nat, 4));
    } else {
        lemma_le_round_trip(n as nat, 8);
        assert(s.subrange(1, 9) =~= le_bytes(n as nat, 8));
    }
}

/// A byte string reads back as itself, whatever follows it.
pub proof fn lemma_bytes_round_trip(b: Seq<u8>, rest: Seq<u8>)
    requires
        b.len() <= usize::MAX,
    ensures
        parse_bytes(bytes_encoding(b) + rest) == Some((b, bytes_encoding(b).len())),
{
    let len = varint(b.len() as u64);
    lemma_varint_round_trip(b.len() as u64, b + rest);
    assert(bytes_encoding(b) + rest =~= len + (b + rest));
    let s = bytes_encoding(b) + rest;
    assert(s.subrange(len.len() as int, (len.len() + b.len()) as int) =~= b);
}

/// A well-formed client id reads back as itself, whatever follows it.
pub proof fn lemma_client_id_round_trip(id: ClientId, rest: Seq<u8>)
    requires
        id.wf(),
    ensures
        parse_client_id(client_id_encoding(id) + rest) == Some(
            (id, client_id_encoding(id).len()),
        ),
{
    let idx = id.index();
    let ver = id.version();
    assert(ver < 0x1_0000_0000) by {
        assert(id.ffi as nat / 0x1_0000_0000 < 0x1_0000_0000) by (nonlinear_arith)
            requires
                id.ffi as nat <= 0xffff_ffff_ffff_ffff,
        ;
    }
    let a = varint(idx as u64);
    let b = varint(odd(ver) as u64);
    let s = client_id_encoding(id) + rest;
    assert(s =~= a + (b + rest));
    lemma_varint_round_trip(idx as u64, b + rest);
    assert(s.skip(a.len() as int) =~= b + rest);
    lemma_varint_round_trip(odd(ver) as u64, rest);
    assert(odd(ver) == ver);
    assert(id.ffi as nat == ver * 0x1_0000_0000 + idx) by (nonlinear_arith)
        requires
            ver == id.ffi as nat / 0x1_0000_0000,
            idx == id.ffi as nat % 0x1_0000_0000,
    ;
}

/// A control word reads back as itself, whatever follows it.
pub proof fn lemma_control_round_trip(c: SubscriptionControl, rest: Seq<u8>)
    ensures
        parse_control(control_encoding(c) + rest) == Some((c, control_encoding(c).len())),
{
    lemma_varint_round_trip(c.index() as u64, rest);
}

/// What a server reads of a call message that a client wrote: the
/// protocol version, the function id and the client id, each taking exactly
/// its own bytes, so that the arguments are what is left.
pub proof fn lemma_call_round_trip(id: Seq<u8>, client_id: ClientId, payload: Seq<u8>)
    requires
        id.len() <= usize::MAX,
        client_id.wf(),
    ensures
        ({
            let msg = call_header(id, client_id) + payload;
            let n1 = varint(VERSION as u64).len();
            let n2 = bytes_encoding(id).len();
            let n3 = client_id_encoding(client_id).len();
            &&& parse_usize(msg) == Some((VERSION, n1))
            &&& parse_bytes(msg.skip(n1 as int)) == Some((id, n2))
            &&& parse_client_id(msg.skip((n1 + n2) as int)) == Some((client_id, n3))
            &&& msg.skip((n1 + n2 + n3) as int) == payload
            &&& n1 + n2 + n3 == call_header(id, client_id).len()
        }),
{
    let v = varint(VERSION as u64);
    let b = bytes_encoding(id);
    let c = client_id_encoding(client_id);
    let msg = call_header(id, client_id) + payload;
    assert(msg =~= v + (b + c + payload));
    lemma_varint_round_trip(VERSION as u64, b + c + payload);
    assert(msg.skip(v.len() as int) =~= b + (c + payload));
    lemma_bytes_round_trip(id, c + payload);
    assert(msg.skip((v.len() + b.len()) as int) =~= c + payload);
    lemma_client_id_round_trip(client_id, payload);
    assert(msg.skip((v.len() + b.len() + c.len()) as int) =~= payload);
}

/// What a server reads of a subscription message that a client wrote: as
/// for a call, followed by the control word, and then the service or update.
pub proof fn lemma_subscription_round_trip(
    id: Seq<u8>,
    client_id: ClientId,
    control: SubscriptionControl,
    payload: Seq<u8>,
)
    requires
        id.len() <= usize::MAX,
        client_id.wf(),
    ensures
        ({
            let msg = subscription_header(id, client_id, control) + payload;
            let n1 = varint(VERSION as u64).len();
            let n2 = bytes_encoding(id).len();
            let n3 = client_id_encoding(client_id).len();
            let n4 = control_encoding(control).len();
            &&& parse_usize(msg) == Some((VERSION, n1))
            &&& parse_bytes(msg.skip(n1 as int)) == Some((id, n2))
            &&& parse_client_id(msg.skip((n1 + n2) as int)) == Some((client_id, n3))
            &&& parse_control(msg.skip((n1 + n2 + n3) as int)) == Some((control, n4))
            &&& msg.skip((n1 + n2 + n3 + n4) as int) == payload
        }),
{
    let h = call_header(id, client_id);
    let w = control_encoding(control);
    let msg = subscription_header(id, client_id, control) + payload;
    assert(msg =~= h + (w + payload));
    lemma_call_round_trip(id, client_id, w + payload);
    let n = varint(VERSION as u64).len() + bytes_encoding(id).len() + client_id_encoding(
        client_id,
    ).len();
    assert(msg.skip(n as int) =~= w + payload);
    lemma_control_round_trip(control, payload);
    assert(msg.skip((n + w.len()) as int) =~= payload);
}

/// What a client reads of a reply header that a server wrote: the protocol
/// version and the client id, each taking exactly its own bytes, so that
/// the payload starts right after the header.
pub proof fn lemma_reply_round_trip(client_id: ClientId, payload: Seq<u8>)
    requires
        client_id.wf(),
    ensures
        ({
            let msg = reply_header(client_id) + payload;
            let n1 = varint(VERSION as u64).len();
            let n2 = client_id_encoding(client_id).len();
            &&& parse_usize(msg) == Some((VERSION, n1))
            &&& parse_client_id(msg.skip(n1 as int)) == Some((client_id, n2))
            &&& n1 + n2 == reply_header(client_id).len()
            &&& msg.skip((n1 + n2) as int) == payload
        }),
{
    let v = varint(VERSION as u64);
    let c = client_id_encoding(client_id);
    let msg = reply_header(client_id) + payload;
    assert(msg =~= v + (c + payload));
    lemma_varint_round_trip(VERSION as u64, c + payload);
    assert(msg.skip(v.len() as int) =~= c + payload);
    lemma_client_id_round_trip(client_id, payload);
    assert(msg.skip((v.len() + c.len()) as int) =~= payload);
}

} // verus!
