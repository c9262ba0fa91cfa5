//! Arpy: the protocol logic of a small RPC framework, verified with Verus.
//!
//! The transports (HTTP servers, WebSocket sessions, HTTP clients) live
//! outside this crate; what they decide is computed here.
use vstd::prelude::*;

pub mod client;
pub mod doc;
pub mod error_from;
pub mod http;
pub mod mime;
pub mod msg_id;
pub mod protocol;
pub mod rpc;
pub mod server;
pub mod source;
pub mod test_data;
pub mod text;

pub use error_from::ErrorFrom;
pub use mime::MimeType;
pub use protocol::MsgId;

verus! {

} // verus!
