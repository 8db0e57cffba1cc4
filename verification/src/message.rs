//! The messages exchanged with the browser.
use vstd::prelude::*;

verus! {

/// A request received from the browser.
///
/// All requests carry a request ID.
#[derive(Debug, PartialEq)]
pub enum Request {
    Ping { req_id: u64 },
    GetTextTopics { req_id: u64, url: String, text: String },
}

/// A response to send to the browser.
///
/// Includes unsolicited configuration updates, which carry no request ID, and an
/// error response whose request ID is optional.
#[allow(inconsistent_fields)]
#[derive(Clone, Debug, PartialEq)]
pub enum Response {
    Pong { req_id: u64 },
    ReturnTextTopics { req_id: u64, topics: Vec<String> },
    UpdateConfig { key: String, value: String },
    Error { req_id: Option<u64>, error: ErrorKind },
}

/// Any error of which the browser may find use in knowing.
#[derive(Clone, Copy, Debug, PartialEq, Eq, Structural)]
pub enum ErrorKind {
    /// An error occurred while trying to read from stdin.
    Stdin,
    /// An error occurred while trying to write to stdout.
    Stdout,
    /// Failed to connect to the config server.
    ConfigConnect,
    /// Failed to subscribe to the config server connection.
    ConfigSubscribe,
    /// Failed to receive a config message.
    ConfigReceive,
    /// Received a config message with an invalid size (empty or too large).
    ConfigMessageSize,
    /// Failed to decode or deserialize a config message into a UTF-8 key/value pair.
    ConfigMessageDeserialize,
    /// Received a client request with an invalid size (empty or too large).
    ClientRequestSize,
    /// Failed to decode or deserialize a client request as UTF-8 JSON.
    ClientRequestDeserialize,
    /// Tried to send a client response with an invalid size (empty or too large).
    ClientResponseSize,
    /// Failed to serialize a client response as JSON.
    ClientResponseSerialize,
    /// Failed to process a client request.
    ClientProcess,
}

impl Request {
    /// The request ID that every request carries.
    pub open spec fn spec_req_id(self) -> u64 {
        match self {
            Request::Ping { req_id } => req_id,
            Request::GetTextTopics { req_id, .. } => req_id,
        }
    }
}

impl Response {
    /// The request ID that a response answers, if it answers one.
    pub open spec fn spec_req_id(self) -> Option<u64> {
        match self {
            Response::Pong { req_id } => Some(req_id),
            Response::ReturnTextTopics { req_id, .. } => Some(req_id),
            Response::UpdateConfig { .. } => None,
            Response::Error { req_id, .. } => req_id,
        }
    }
}

/// An error that is not tied to a request becomes an error response without a request ID.
impl From<ErrorKind> for Response {
    fn from(error: ErrorKind) -> (response: Self) {
        Response::Error { req_id: None, error }
    }
}

impl vstd::std_specs::convert::FromSpecImpl<ErrorKind> for Response {
    open spec fn obeys_from_spec() -> bool {
        true
    }

    open spec fn from_spec(error: ErrorKind) -> Self {
        Response::Error { req_id: None, error }
    }
}

} // verus!
