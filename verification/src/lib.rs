//! Verified core of the dropfile service: the protobuf wire format of its
//! messages, the text helpers, the hashing of user names, the decisions a
//! server connection takes for each request, and the client's sealing of
//! files and names and the requests it sends.

pub mod varint;
pub mod wire;
pub mod protobuf_msg;
pub mod text;
pub mod crypto;
pub mod session;
pub mod logger;
pub mod vault;
pub mod client;
