//! Client side of the FastCGI protocol, without the transport.
//!
//! The crate encodes requests into the record stream that a FastCGI server
//! expects and reassembles the server's record stream into a response. It
//! never touches a socket: requests are written into byte buffers and
//! responses are read from byte buffers, so every rule of the protocol is a
//! function on bytes with a machine-checked contract.

pub mod client;
pub mod conn;
pub mod decimal;
pub mod demux;
pub mod empty;
pub mod error;
pub mod id;
pub mod meta;
pub mod params;
pub mod request;
pub mod response;
pub mod stream;

pub use crate::client::Client;
pub use crate::error::{ClientError, ClientResult, IoErrorKind};
pub use crate::params::Params;
pub use crate::request::Request;
pub use crate::response::Response;
