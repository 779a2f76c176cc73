//! The ways in which a request can fail.

use crate::decimal::{decimal, decimal_string};
use crate::meta::{ProtocolStatus, RequestType};
use vstd::prelude::*;
use vstd::string::*;

verus! {

/// The result of an operation of the client.
pub type ClientResult<T> = Result<T, ClientError>;

/// Why the byte channel could not deliver what the protocol needed.
#[derive(Debug, Clone, Copy, PartialEq, Eq, Structural)]
pub enum IoErrorKind {
    /// The channel ended in the middle of a record, or before the record
    /// that ends the response.
    UnexpectedEof,
    /// A record arrived whose content is too short for what it must hold.
    InvalidData,
    /// Any other failure of the transport.
    Other,
}

/// The errors that a request can end in.
#[derive(Debug, Clone, Copy, PartialEq, Eq, Structural)]
pub enum ClientError {
    /// The channel failed; the connection is unusable afterwards.
    Io {
        /// What went wrong with the channel.
        kind: IoErrorKind,
    },
    /// No request with this id is known.
    RequestIdNotFound {
        /// The request id that was looked up.
        id: u16,
    },
    /// A record arrived that does not belong to the awaited request.
    ResponseNotFound {
        /// The request id whose response was awaited.
        id: u16,
    },
    /// A record arrived whose type is never valid in a response.
    UnknownRequestType {
        /// The type of the offending record.
        request_type: RequestType,
    },
    /// The server ended the request because it cannot multiplex
    /// connections.
    EndRequestCantMpxConn {
        /// The status code of the application.
        app_status: u32,
    },
    /// The server ended the request because it is too busy.
    EndRequestOverloaded {
        /// The status code of the application.
        app_status: u32,
    },
    /// The server ended the request because it does not know the role.
    EndRequestUnknownRole {
        /// The status code of the application.
        app_status: u32,
    },
    /// Every request id of the connection is in use.
    RequestIdExhausted,
}

impl ClientError {
    /// The error that a protocol status other than `RequestComplete`
    /// stands for. `RequestComplete` itself is no error; it is mapped like
    /// `UnknownRole`.
    pub open spec fn of_protocol_status(protocol_status: ProtocolStatus, app_status: u32) -> Self {
        match protocol_status {
            ProtocolStatus::CantMpxConn => ClientError::EndRequestCantMpxConn { app_status },
            ProtocolStatus::Overloaded => ClientError::EndRequestOverloaded { app_status },
            _ => ClientError::EndRequestUnknownRole { app_status },
        }
    }

    /// Builds the error for a request that ended with `protocol_status`,
    /// carrying the status code of the application.
    pub fn new_end_request_with_protocol_status(
        protocol_status: ProtocolStatus,
        app_status: u32,
    ) -> (e: Self)
        ensures
            e == Self::of_protocol_status(protocol_status, app_status),
    {
        match protocol_status {
            ProtocolStatus::CantMpxConn => ClientError::EndRequestCantMpxConn { app_status },
            ProtocolStatus::Overloaded => ClientError::EndRequestOverloaded { app_status },
            _ => ClientError::EndRequestUnknownRole { app_status },
        }
    }

    /// The text of the message that describes this error.
    pub open spec fn message(self) -> Seq<char> {
        match self {
            ClientError::Io { kind } => match kind {
                IoErrorKind::UnexpectedEof => "unexpected end of file"@,
                IoErrorKind::InvalidData => "invalid data"@,
                IoErrorKind::Other => "other error"@,
            },
            ClientError::RequestIdNotFound { id } => "Response not found of request id `"@
                + decimal(id as nat) + "`"@,
            ClientError::ResponseNotFound { id } => "Response not found of request id `"@
                + decimal(id as nat) + "`"@,
            ClientError::UnknownRequestType { request_type } =>
                "Response not found of request id `"@ + decimal(request_type.code() as nat)
                    + "`"@,
            ClientError::EndRequestCantMpxConn { app_status } =>
                "This app can't multiplex [CantMpxConn]; AppStatus: "@ + decimal(
                    app_status as nat,
                ),
            ClientError::EndRequestOverloaded { app_status } =>
                "New request rejected; too busy [OVERLOADED]; AppStatus: "@ + decimal(
                    app_status as nat,
                ),
            ClientError::EndRequestUnknownRole { app_status } =>
                "Role value not known [UnknownRole]; AppStatus: "@ + decimal(app_status as nat),
            ClientError::RequestIdExhausted => "No request id is free"@,
        }
    }

    /// Describes the error in words.
    pub fn to_string(&self) -> (s: String)
        ensures
            s@ == self.message(),
    {
        match self {
            ClientError::Io { kind } => match kind {
                IoErrorKind::UnexpectedEof => String::from_str("unexpected end of file"),
                IoErrorKind::InvalidData => String::from_str("invalid data"),
                IoErrorKind::Other => String::from_str("other error"),
            },
            ClientError::RequestIdNotFound { id } => {
                let mut s = String::from_str("Response not found of request id `");
                s.append(decimal_string(*id as u64).as_str());
                s.append("`");
                s
            },
            ClientError::ResponseNotFound { id } => {
                let mut s = String::from_str("Response not found of request id `");
                s.append(decimal_string(*id as u64).as_str());
                s.append("`");
                s
            },
            ClientError::UnknownRequestType { request_type } => {
                let mut s = String::from_str("Response not found of request id `");
                s.append(decimal_string(request_type.to_u8() as u64).as_str());
                s.append("`");
                s
            },
            ClientError::EndRequestCantMpxConn { app_status } => {
                let mut s = String::from_str("This app can't multiplex [CantMpxConn]; AppStatus: ");
                s.append(decimal_string(*app_status as u64).as_str());
                s
            },
            ClientError::EndRequestOverloaded { app_status } => {
                let mut s = String::from_str(
                    "New request rejected; too busy [OVERLOADED]; AppStatus: ",
                );
                s.append(decimal_string(*app_status as u64).as_str());
                s
            },
            ClientError::EndRequestUnknownRole { app_status } => {
                let mut s = String::from_str("Role value not known [UnknownRole]; AppStatus: ");
                s.append(decimal_string(*app_status as u64).as_str());
                s
            },
            ClientError::RequestIdExhausted => String::from_str("No request id is free"),
        }
    }
}

} // verus!
