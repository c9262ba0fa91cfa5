//! The server side of the WebSocket protocol: routing calls to handlers by
//! function id, reading call and subscription messages, and deciding what
//! to do with each incoming WebSocket message.
use core::ops::ControlFlow;
use std::collections::HashMap;
use vstd::prelude::*;

use crate::protocol::{
    parse_bytes, parse_client_id, parse_control, parse_usize, read_bytes, read_client_id,
    read_control, read_usize, odd, ClientId, SubscriptionControl, VERSION,
};
use crate::text::{concat, decimal, decimal_text, owned};

verus! {

/// An error while handling a WebSocket message.
#[derive(Debug)]
pub enum Error {
    /// No handler is registered for the message's function id.
    FunctionNotFound,
    /// The message does not follow the protocol.
    Protocol(String),
    /// A part of the message could not be deserialized.
    Deserialization(bincode::Error),
}

pub type Result<T> = core::result::Result<T, Error>;

/// The text of the error for a message of an unknown protocol version.
pub open spec fn version_mismatch_text(got: usize) -> Seq<char> {
    "Unknown protocol version: Expected "@ + decimal(VERSION as nat) + ", got "@ + decimal(
        got as nat,
    )
}

fn version_mismatch(got: usize) -> (e: Error)
    ensures
        e matches Error::Protocol(m) && m@ == version_mismatch_text(got),
{
    let m = owned("Unknown protocol version: Expected ");
    let m = concat(m, decimal_text(VERSION as u64).as_str());
    let m = concat(m, ", got ");
    let m = concat(m, decimal_text(got as u64).as_str());
    Error::Protocol(m)
}

// ---------------------------------------------------------------------------
// The routing table
// ---------------------------------------------------------------------------

/// The map that a list of (id, handler) entries stands for: a later entry
/// for an id replaces an earlier one.
pub open spec fn table<H>(entries: Seq<(Vec<u8>, H)>) -> Map<Seq<u8>, H>
    decreases entries.len(),
{
    if entries.len() == 0 {
        Map::empty()
    } else {
        table(entries.drop_last()).insert(entries.last().0@, entries.last().1)
    }
}

/// No id occurs twice.
pub open spec fn ids_distinct<H>(entries: Seq<(Vec<u8>, H)>) -> bool {
    forall|i: int, j: int|
        0 <= i < j < entries.len() ==> #[trigger] entries[i].0@ != #[trigger] entries[j].0@
}

proof fn lemma_table_dom<H>(entries: Seq<(Vec<u8>, H)>, k: Seq<u8>)
    ensures
        table(entries).dom().contains(k) <==> exists|i: int|
            0 <= i < entries.len() && #[trigger] entries[i].0@ == k,
    decreases entries.len(),
{
    if entries.len() > 0 {
        let init = entries.drop_last();
        lemma_table_dom(init, k);
        if table(entries).dom().contains(k) && k != entries.last().0@ {
            let i = choose|i: int| 0 <= i < init.len() && #[trigger] init[i].0@ == k;
            assert(entries[i].0@ == k);
        }
        if exists|i: int| 0 <= i < entries.len() && #[trigger] entries[i].0@ == k {
            let i = choose|i: int| 0 <= i < entries.len() && #[trigger] entries[i].0@ == k;
            if i < entries.len() - 1 {
                assert(init[i].0@ == k);
            }
        }
    }
}

proof fn lemma_table_value<H>(entries: Seq<(Vec<u8>, H)>, i: int)
    requires
        ids_distinct(entries),
        0 <= i < entries.len(),
    ensures
        table(entries).dom().contains(entries[i].0@),
        table(entries)[entries[i].0@] == entries[i].1,
    decreases entries.len(),
{
    lemma_table_dom(entries, entries[i].0@);
    if i < entries.len() - 1 {
        let init = entries.drop_last();
        assert(ids_distinct(init)) by {
            assert forall|a: int, b: int| 0 <= a < b < init.len() implies #[trigger] init[a].0@
                != #[trigger] init[b].0@ by {
                assert(entries[a].0@ != entries[b].0@);
            }
        }
        assert(init[i] == entries[i]);
        lemma_table_value(init, i);
        assert(entries[i].0@ != entries[entries.len() - 1].0@);
    }
}

/// Whether two byte strings are equal.
fn bytes_eq(a: &[u8], b: &[u8]) -> (r: bool)
    ensures
        r == (a@ == b@),
{
    if a.len() != b.len() {
        return false;
    }
    let mut i: usize = 0;
    while i < a.len()
        invariant
            a@.len() == b@.len(),
            i <= a@.len(),
            forall|j: int| 0 <= j < i ==> a@[j] == b@[j],
        decreases a@.len() - i,
    {
        if a[i] != b[i] {
            return false;
        }
        i = i + 1;
    }
    assert(a@ =~= b@);
    true
}

/// A collection of RPC handlers, each for the function with a given id.
///
/// The handlers are of any type: the server stores closures that run a
/// function and send its reply.
pub struct WebSocketRouter<H> {
    handlers: Vec<(Vec<u8>, H)>,
}

impl<H> View for WebSocketRouter<H> {
    type V = Map<Seq<u8>, H>;

    closed spec fn view(&self) -> Map<Seq<u8>, H> {
        table(self.handlers@)
    }
}

impl<H> WebSocketRouter<H> {
    #[verifier::type_invariant]
    closed spec fn inv(self) -> bool {
        ids_distinct(self.handlers@)
    }

    /// Construct an empty router.
    pub fn new() -> (r: Self)
        ensures
            r@ == Map::<Seq<u8>, H>::empty(),
    {
        WebSocketRouter { handlers: Vec::new() }
    }

    /// The position of the handler for `id`, if there is one.
    fn position(&self, id: &[u8]) -> (r: Option<usize>)
        ensures
            match r {
                Some(i) => i < self.handlers@.len() && self.handlers@[i as int].0@ == id@,
                None => forall|j: int|
                    0 <= j < self.handlers@.len() ==> #[trigger] self.handlers@[j].0@ != id@,
            },
    {
        let mut i: usize = 0;
        while i < self.handlers.len()
            invariant
                i <= self.handlers@.len(),
                forall|j: int| 0 <= j < i ==> #[trigger] self.handlers@[j].0@ != id@,
            decreases self.handlers@.len() - i,
        {
            if bytes_eq(self.handlers[i].0.as_slice(), id) {
                return Some(i);
            }
            i = i + 1;
        }
        None
    }

    /// Add a handler for the function `id`. A handler added before for the
    /// same id is replaced.
    pub fn handle(self, id: Vec<u8>, handler: H) -> (r: Self)
        ensures
            r@ == self@.insert(id@, handler),
    {
        proof {
            use_type_invariant(&self);
        }
        let pos = self.position(id.as_slice());
        let ghost old_entries = self.handlers@;
        let ghost k = id@;
        let WebSocketRouter { mut handlers } = self;
        match pos {
            Some(i) => {
                handlers.set(i, (id, handler));
                proof {
                    let new_entries = handlers@;
                    assert(new_entries == old_entries.update(i as int, new_entries[i as int]));
                    assert(ids_distinct(new_entries)) by {
                        assert forall|a: int, b: int|
                            0 <= a < b < new_entries.len() implies #[trigger] new_entries[a].0@
                            != #[trigger] new_entries[b].0@ by {
                            assert(old_entries[a].0@ != old_entries[b].0@);
                        }
                    }
                    assert forall|x: Seq<u8>| #[trigger]
                        table(new_entries).dom().contains(x) == table(old_entries).insert(
                            k,
                            handler,
                        ).dom().contains(x) by {
                        lemma_table_dom(new_entries, x);
                        lemma_table_dom(old_entries, x);
                        if x == k {
                            assert(new_entries[i as int].0@ == x);
                        } else {
                            if exists|j: int| 0 <= j < old_entries.len() && #[trigger] old_entries[j].0@ == x {
                                let j = choose|j: int| 0 <= j < old_entries.len() && #[trigger] old_entries[j].0@ == x;
                                assert(new_entries[j].0@ == x);
                            }
                            if exists|j: int| 0 <= j < new_entries.len() && #[trigger] new_entries[j].0@ == x {
                                let j = choose|j: int| 0 <= j < new_entries.len() && #[trigger] new_entries[j].0@ == x;
                                assert(old_entries[j].0@ == x);
                            }
                        }
                    }
                    assert forall|x: Seq<u8>| #[trigger] table(new_entries).dom().contains(x)
                        implies table(new_entries)[x] == table(old_entries).insert(k, handler)[x] by {
                        lemma_table_dom(new_entries, x);
                        let j = choose|j: int| 0 <= j < new_entries.len() && #[trigger] new_entries[j].0@ == x;
                        lemma_table_value(new_entries, j);
                        if j != i {
                            lemma_table_value(old_entries, j);
                        }
                    }
                    assert(table(new_entries) =~= table(old_entries).insert(k, handler));
                }
            },
            None => {
                handlers.push((id, handler));
                proof {
                    let new_entries = handlers@;
                    assert(new_entries.drop_last() =~= old_entries);
                    assert(ids_distinct(new_entries)) by {
                        assert forall|a: int, b: int|
                            0 <= a < b < new_entries.len() implies #[trigger] new_entries[a].0@
                            != #[trigger] new_entries[b].0@ by {
                            if b < old_entries.len() {
                                assert(old_entries[a].0@ != old_entries[b].0@);
                            } else {
                                assert(old_entries[a].0@ != k);
                            }
                        }
                    }
                }
            },
        }
        WebSocketRouter { handlers }
    }

    /// The handler for the function `id`.
    pub fn get(&self, id: &[u8]) -> (r: Option<&H>)
        ensures
            r is Some <==> self@.dom().contains(id@),
            r matches Some(h) ==> *h == self@[id@],
    {
        proof {
            use_type_invariant(self);
            lemma_table_dom(self.handlers@, id@);
        }
        match self.position(id) {
            Some(i) => {
                proof {
                    lemma_table_value(self.handlers@, i as int);
                }
                Some(&self.handlers[i].1)
            },
            None => None,
        }
    }

    /// Route a raw WebSocket message: check its protocol version, read the
    /// function id and find the handler for it. The handler gets the rest
    /// of the message.
    pub fn route<'a, 'b>(&'a self, msg: &'b [u8]) -> (r: Result<(&'a H, &'b [u8])>)
        ensures
            match spec_decode_call(msg@) {
                CallHead::Undecodable => r matches Err(Error::Deserialization(_)),
                CallHead::WrongVersion(v) => r matches Err(Error::Protocol(m))
                    && m@ == version_mismatch_text(v),
                CallHead::Call(id, n) => if self@.dom().contains(id) {
                    r matches Ok((h, rest)) && *h == self@[id] && rest@ == msg@.skip(n as int)
                } else {
                    r matches Err(Error::FunctionNotFound)
                },
            },
    {
        let (id, rest) = decode_call(msg)?;
        match self.get(id.as_slice()) {
            Some(h) => Ok((h, rest)),
            None => Err(Error::FunctionNotFound),
        }
    }
}

// ---------------------------------------------------------------------------
// Reading messages
// ---------------------------------------------------------------------------

/// How the start of a call message reads.
pub enum CallHead {
    /// The version or the function id cannot be read.
    Undecodable,
    /// The message is of another protocol version.
    WrongVersion(usize),
    /// The function id, and how many bytes the version and id take.
    Call(Seq<u8>, nat),
}

/// How the start of a call message reads: a protocol version, which must be
/// ours, then the function id.
pub open spec fn spec_decode_call(msg: Seq<u8>) -> CallHead {
    match parse_usize(msg) {
        None => CallHead::Undecodable,
        Some((v, n1)) => if v != VERSION {
            CallHead::WrongVersion(v)
        } else {
            match parse_bytes(msg.skip(n1 as int)) {
                None => CallHead::Undecodable,
                Some((id, n2)) => CallHead::Call(id, n1 + n2),
            }
        },
    }
}

/// Read the protocol version and the function id from the start of a call
/// message, and hand back the rest of it.
pub fn decode_call(msg: &[u8]) -> (r: Result<(Vec<u8>, &[u8])>)
    ensures
        match spec_decode_call(msg@) {
            CallHead::Undecodable => r matches Err(Error::Deserialization(_)),
            CallHead::WrongVersion(v) => r matches Err(Error::Protocol(m))
                && m@ == version_mismatch_text(v),
            CallHead::Call(id, n) => r matches Ok((x, rest)) && x@ == id && rest@ == msg@.skip(
                n as int,
            ),
        },
{
    let (version, rest) = match read_usize(msg) {
        Ok(x) => x,
        Err(e) => return Err(Error::Deserialization(e)),
    };
    if version != VERSION {
        return Err(version_mismatch(version));
    }
    match read_bytes(rest) {
        Ok((id, rest2)) => {
            proof {
                let n1 = parse_usize(msg@).unwrap().1;
                let n2 = parse_bytes(msg@.skip(n1 as int)).unwrap().1;
                assert(rest2@ =~= msg@.skip((n1 + n2) as int));
            }
            Ok((id, rest2))
        },
        Err(e) => Err(Error::Deserialization(e)),
    }
}

/// Read the client id that starts the rest of a call message, and hand back
/// the arguments that follow it.
pub fn decode_client_id(input: &[u8]) -> (r: Result<(ClientId, &[u8])>)
    ensures
        match parse_client_id(input@) {
            None => r matches Err(Error::Deserialization(_)),
            Some((id, n)) => r matches Ok((x, rest)) && x == id && rest@ == input@.skip(n as int),
        },
{
    match read_client_id(input) {
        Ok(x) => Ok(x),
        Err(e) => Err(Error::Deserialization(e)),
    }
}

/// Read the client id and the control word that start the rest of a
/// subscription message, and hand back the service or update that follows.
pub fn decode_subscription(input: &[u8]) -> (r: Result<(ClientId, SubscriptionControl, &[u8])>)
    ensures
        match parse_client_id(input@) {
            None => r matches Err(Error::Deserialization(_)),
            Some((id, n1)) => match parse_control(input@.skip(n1 as int)) {
                None => r matches Err(Error::Deserialization(_)),
                Some((c, n2)) => r matches Ok((x, y, rest)) && x == id && y == c && rest@
                    == input@.skip((n1 + n2) as int),
            },
        },
{
    let (id, rest) = decode_client_id(input)?;
    match read_control(rest) {
        Ok((control, rest2)) => {
            proof {
                let n1 = parse_client_id(input@).unwrap().1;
                let n2 = parse_control(input@.skip(n1 as int)).unwrap().1;
                assert(rest2@ =~= input@.skip((n1 + n2) as int));
            }
            Ok((id, control, rest2))
        },
        Err(e) => Err(Error::Deserialization(e)),
    }
}

// ---------------------------------------------------------------------------
// Updates to a subscription
// ---------------------------------------------------------------------------

/// The text that `Debug` gives for the slot map key of a client id:
/// `DefaultKey(null)` for the null index, and otherwise the index, `v` and
/// the version made odd, inside `DefaultKey(..)`.
pub open spec fn key_debug_text(id: ClientId) -> Seq<char> {
    "DefaultKey("@ + (if id.index() == u32::MAX {
        "null"@
    } else {
        decimal(id.index()) + "v"@ + decimal(odd(id.version()))
    }) + ")"@
}

/// `Debug` of the `slotmap::DefaultKey` that `KeyData::from_ffi` makes of a
/// client id.
///
/// The contract claims slotmap's `Debug` for `KeyData` (`null` for the null
/// index, else the index, `v` and the version) inside the `DefaultKey(..)`
/// that `new_key_type!` derives, where `from_ffi` has taken the low 32 bits
/// as the index and set the lowest bit of the high 32 bits.
#[verifier::external_body]
fn key_debug(id: ClientId) -> (r: String)
    ensures
        r@ == key_debug_text(id),
{
    let key: slotmap::DefaultKey = slotmap::KeyData::from_ffi(id.ffi).into();
    format!("{key:?}")
}

/// The text of the error for an update to a subscription that is not
/// running.
pub open spec fn unknown_subscription_text(id: ClientId) -> Seq<char> {
    "Unknown subscription "@ + key_debug_text(id)
}

/// Where an update to the subscription `client_id` goes, given the update
/// channel that the subscription table holds for it, if any: to that
/// channel, or nowhere, with an error naming the subscription.
pub fn update_target<S>(sink: Option<S>, client_id: ClientId) -> (r: Result<S>)
    ensures
        match sink {
            Some(s) => r == Ok::<S, Error>(s),
            None => r matches Err(Error::Protocol(m)) && m@ == unknown_subscription_text(client_id),
        },
{
    match sink {
        Some(s) => Ok(s),
        None => Err(Error::Protocol(concat(owned("Unknown subscription "), key_debug(client_id).as_str()))),
    }
}

/// The running subscriptions, by client id: the channel that each one's
/// updates go to. A subscription is started under its client id, and ended
/// when its items end.
pub struct SubscriptionTable<S> {
    updates: HashMap<u64, S>,
}

impl<S> View for SubscriptionTable<S> {
    type V = Map<u64, S>;

    /// The channels, by the client id's number.
    closed spec fn view(&self) -> Map<u64, S> {
        self.updates@
    }
}

impl<S> SubscriptionTable<S> {
    /// A table with no subscription.
    pub fn new() -> (r: Self)
        ensures
            r@ == Map::<u64, S>::empty(),
    {
        SubscriptionTable { updates: HashMap::new() }
    }

    /// Start the subscription `client_id`, whose updates go to `sink`; it
    /// takes the place of one of the same id.
    pub fn start(&mut self, client_id: ClientId, sink: S)
        ensures
            final(self)@ == old(self)@.insert(client_id.ffi, sink),
    {
        broadcast use vstd::std_specs::hash::group_hash_axioms;
        self.updates.insert(client_id.ffi, sink);
    }

    /// End the subscription `client_id`.
    pub fn end(&mut self, client_id: ClientId)
        ensures
            final(self)@ == old(self)@.remove(client_id.ffi),
    {
        broadcast use vstd::std_specs::hash::group_hash_axioms;
        self.updates.remove(&client_id.ffi);
    }

    /// Where an update to the subscription `client_id` goes: to its
    /// channel while it runs, and otherwise nowhere, with an error naming
    /// the subscription.
    pub fn target(&self, client_id: ClientId) -> (r: Result<&S>)
        ensures
            self@.contains_key(client_id.ffi) ==> r == Ok::<&S, Error>(&self@[client_id.ffi]),
            !self@.contains_key(client_id.ffi) ==> (r matches Err(Error::Protocol(m)) && m@
                == unknown_subscription_text(client_id)),
    {
        broadcast use vstd::std_specs::hash::group_hash_axioms;
        update_target(self.updates.get(&client_id.ffi), client_id)
    }
}

/// Updates reach the subscription started last under a client id, and an
/// update to a subscription that has ended is refused until one is started
/// under that id again.
pub proof fn lemma_updates_reach_running_subscription<S>(
    table: Map<u64, S>,
    client_id: ClientId,
    sink: S,
)
    ensures
        table.insert(client_id.ffi, sink).contains_key(client_id.ffi),
        table.insert(client_id.ffi, sink)[client_id.ffi] == sink,
        !table.insert(client_id.ffi, sink).remove(client_id.ffi).contains_key(client_id.ffi),
        !table.remove(client_id.ffi).contains_key(client_id.ffi),
{
}

/// The error for an update that the subscription's channel refused,
/// described by `e`.
pub fn subscription_closed<T: core::fmt::Display>(e: T) -> (r: Error)
    ensures
        r matches Error::Protocol(m) && exists|t: String|
            vstd::string::to_string_from_display_ensures(&e, t) && m@ == "Subcription closed: "@ + t@,
{
    let t = e.to_string();
    Error::Protocol(concat(owned("Subcription closed: "), t.as_str()))
}

// ---------------------------------------------------------------------------
// Incoming WebSocket messages
// ---------------------------------------------------------------------------

/// A WebSocket message as the server sees it: only a binary message's
/// payload matters.
pub enum WsMessage {
    Text,
    Binary(Vec<u8>),
    Continuation,
    Ping,
    Pong,
    Close,
    Nop,
}

/// Decide what to do with an incoming WebSocket message: pass a binary
/// payload on (`Continue`), skip pings, pongs and no-ops (`None`), and end
/// the session on an error, a close, a text message or a continuation
/// frame (`Break`).
pub fn handle_incoming<E>(msg: core::result::Result<WsMessage, E>) -> (r: Option<
    ControlFlow<(), Vec<u8>>,
>)
    ensures
        r == match msg {
            Err(_) => Some(ControlFlow::<(), Vec<u8>>::Break(())),
            Ok(WsMessage::Binary(params)) => Some(ControlFlow::Continue(params)),
            Ok(WsMessage::Ping) | Ok(WsMessage::Pong) | Ok(WsMessage::Nop) => None,
            Ok(_) => Some(ControlFlow::Break(())),
        },
{
    match msg {
        Err(_) => Some(ControlFlow::Break(())),
        Ok(WsMessage::Text) => Some(ControlFlow::Break(())),
        Ok(WsMessage::Binary(params)) => Some(ControlFlow::Continue(params)),
        Ok(WsMessage::Continuation) => Some(ControlFlow::Break(())),
        Ok(WsMessage::Ping) => None,
        Ok(WsMessage::Pong) => None,
        Ok(WsMessage::Close) => Some(ControlFlow::Break(())),
        Ok(WsMessage::Nop) => None,
    }
}

// ---------------------------------------------------------------------------
// A WebSocket session
// ---------------------------------------------------------------------------

/// What happens in a server's WebSocket session.
pub enum SocketEvent {
    /// A message arrived from the client, and a call slot was free for it.
    Incoming(Vec<u8>),
    /// A reply, or the error that handling a message ended in, is ready.
    Outgoing(Result<Vec<u8>>),
    /// Sending to the client failed: the client has gone.
    SendFailed,
    /// The client sends no more messages and every reply has gone out.
    Closed,
}

/// What a server's WebSocket session does next.
pub enum SocketAction {
    /// Handle the message in a task of its own, which holds the call slot
    /// until it is done.
    Dispatch(Vec<u8>),
    /// Send the bytes to the client.
    Send(Vec<u8>),
    /// End the session normally.
    Stop,
    /// End the session with the error.
    Fail(Error),
}

/// The session's decision on an event: a message is handled on its own, a
/// reply is sent, the first error that handling a message ended in ends the
/// session with that error, and a client that has gone or is done ends it
/// normally.
pub fn socket_step(event: SocketEvent) -> (r: SocketAction)
    ensures
        r == match event {
            SocketEvent::Incoming(msg) => SocketAction::Dispatch(msg),
            SocketEvent::Outgoing(Ok(bytes)) => SocketAction::Send(bytes),
            SocketEvent::Outgoing(Err(e)) => SocketAction::Fail(e),
            SocketEvent::SendFailed => SocketAction::Stop,
            SocketEvent::Closed => SocketAction::Stop,
        },
{
    match event {
        SocketEvent::Incoming(msg) => SocketAction::Dispatch(msg),
        SocketEvent::Outgoing(Ok(bytes)) => SocketAction::Send(bytes),
        SocketEvent::Outgoing(Err(e)) => SocketAction::Fail(e),
        SocketEvent::SendFailed => SocketAction::Stop,
        SocketEvent::Closed => SocketAction::Stop,
    }
}

/// What a server reads of a call that a client wrote with
/// `encode_call_header`: the call is routed by the function id that was
/// written, and the client id that follows reads back as written, leaving
/// exactly the arguments.
pub proof fn lemma_route_reads_call(id: Seq<u8>, client_id: ClientId, payload: Seq<u8>)
    requires
        id.len() <= usize::MAX,
        client_id.wf(),
    ensures
        ({
            let msg = crate::protocol::call_header(id, client_id) + payload;
            let n = crate::protocol::varint(VERSION as u64).len() + crate::protocol::bytes_encoding(
                id,
            ).len();
            let k = crate::protocol::client_id_encoding(client_id).len();
            &&& spec_decode_call(msg) == CallHead::Call(id, n)
            &&& parse_client_id(msg.skip(n as int)) == Some((client_id, k))
            &&& msg.skip((n + k) as int) == payload
        }),
{
    crate::protocol::lemma_call_round_trip(id, client_id, payload);
}

} // verus!
