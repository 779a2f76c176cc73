//! The two ways in which a client uses its connection.

use crate::demux::Demultiplexer;
use crate::id::{AllocRequestId, FixRequestIdAllocator, PooledRequestIdAllocator};
use vstd::prelude::*;

verus! {

/// A way of using a connection: for one request, or for many.
pub trait Mode {
    /// The policy by which requests on the connection get their ids.
    type Allocator: AllocRequestId;

    /// What the client keeps of the responses that are on their way.
    type Responses;

    /// Whether the server is asked to keep the connection open after a
    /// request.
    spec fn keep_alive() -> bool;

    /// Whether the server is asked to keep the connection open after a
    /// request.
    fn is_keep_alive() -> (b: bool)
        ensures
            b == Self::keep_alive(),
    ;
}

/// The connection serves one request and is closed after the response.
#[derive(Debug, Clone, Copy, PartialEq, Eq, Structural)]
pub struct ShortConn;

impl Mode for ShortConn {
    type Allocator = FixRequestIdAllocator;

    /// Nothing: the one response is read in one go.
    type Responses = ();

    open spec fn keep_alive() -> bool {
        false
    }

    fn is_keep_alive() -> (b: bool) {
        false
    }
}

/// The connection stays open and serves one request after the other.
#[derive(Debug, Clone, Copy, PartialEq, Eq, Structural)]
pub struct KeepAlive {}

impl Mode for KeepAlive {
    type Allocator = PooledRequestIdAllocator;

    /// The responses of the requests that share the connection.
    type Responses = Demultiplexer;

    open spec fn keep_alive() -> bool {
        true
    }

    fn is_keep_alive() -> (b: bool) {
        true
    }
}

} // verus!
