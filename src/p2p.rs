//! Errors of peer requests, and the check of a headers response against its request.
use vstd::prelude::*;

verus! {

/// Error variants that can happen when sending requests to a session.
#[derive(Clone, Copy, Debug, PartialEq, Eq, Structural)]
pub enum RequestError {
    /// Closed channel to the peer.
    ChannelClosed,
    /// Connection to a peer dropped while handling the request.
    ConnectionDropped,
    /// Capability message is not supported by the remote peer.
    UnsupportedCapability,
    /// Request timed out while awaiting response.
    Timeout,
    /// Received bad response.
    BadResponse,
}

impl RequestError {
    /// Indicates whether this error is retryable or fatal.
    pub fn is_retryable(&self) -> (r: bool)
        ensures
            r == (*self == RequestError::Timeout || *self == RequestError::ConnectionDropped),
    {
        matches!(self, RequestError::Timeout | RequestError::ConnectionDropped)
    }

    /// Whether the error happened because the channel was closed.
    pub fn is_channel_closed(&self) -> (r: bool)
        ensures
            r == (*self == RequestError::ChannelClosed),
    {
        matches!(self, RequestError::ChannelClosed)
    }

    /// The message of the error.
    pub fn message(&self) -> (r: &'static str)
        ensures
            r@ == request_error_message(*self),
    {
        match self {
            RequestError::ChannelClosed => "Closed channel to the peer.",
            RequestError::ConnectionDropped => "Connection to a peer dropped while handling the request.",
            RequestError::UnsupportedCapability => "Capability Message is not supported by remote peer.",
            RequestError::Timeout => "Request timed out while awaiting response.",
            RequestError::BadResponse => "Received bad response.",
        }
    }
}

pub open spec fn request_error_message(e: RequestError) -> Seq<char> {
    match e {
        RequestError::ChannelClosed => "Closed channel to the peer."@,
        RequestError::ConnectionDropped => "Connection to a peer dropped while handling the request."@,
        RequestError::UnsupportedCapability => "Capability Message is not supported by remote peer."@,
        RequestError::Timeout => "Request timed out while awaiting response."@,
        RequestError::BadResponse => "Received bad response."@,
    }
}

/// A block identified by its hash or by its number.
#[derive(Clone, Copy, Debug, PartialEq, Eq)]
pub enum BlockHashOrNumber {
    Hash([u8; 32]),
    Number(u64),
}

/// Which way a headers request walks from its start block.
#[derive(Clone, Copy, Debug, PartialEq, Eq, Structural)]
pub enum HeadersDirection {
    /// Towards higher block numbers.
    Rising,
    /// Towards lower block numbers.
    Falling,
}

/// A request for block headers.
#[derive(Clone, Copy, Debug)]
pub struct HeadersRequest {
    pub start: BlockHashOrNumber,
    pub limit: u64,
    pub direction: HeadersDirection,
}

/// What the response check reads of a block header: its number.
#[derive(Clone, Copy, Debug, PartialEq, Eq, Structural)]
pub struct Header {
    pub number: u64,
}

/// How a peer's reputation is to change.
#[derive(Clone, Copy, Debug, PartialEq, Eq, Structural)]
pub enum ReputationChangeKind {
    /// The peer did not answer in time.
    Timeout,
    /// The peer sent a message that could not be handled.
    BadMessage,
    /// The peer broke the protocol.
    BadProtocol,
    /// The peer dropped the connection.
    Dropped,
}

/// Whether a headers response is likely bad for its request: any error; an answer of at
/// most one header whose length is not the requested limit; or, for a request by number,
/// a first header with another number.
pub open spec fn likely_bad_headers_response(res: Result<Seq<Header>, RequestError>, request: HeadersRequest) -> bool {
    match res {
        Ok(headers) => {
            if headers.len() <= 1 && request.limit != headers.len() {
                true
            } else {
                match request.start {
                    BlockHashOrNumber::Number(n) => headers.len() > 0 && headers[0].number != n,
                    BlockHashOrNumber::Hash(_) => false,
                }
            }
        },
        Err(_) => true,
    }
}

pub open spec fn result_view(res: &Result<Vec<Header>, RequestError>) -> Result<Seq<Header>, RequestError> {
    match res {
        Ok(v) => Ok(v@),
        Err(e) => Err(*e),
    }
}

/// Determines whether a headers response matches what was requested.
pub fn is_likely_bad_headers_response(res: &Result<Vec<Header>, RequestError>, request: &HeadersRequest) -> (r: bool)
    ensures
        r == likely_bad_headers_response(result_view(res), *request),
{
    match res {
        Ok(headers) => {
            let request_length = headers.len() as u64;
            if request_length <= 1 && request.limit != request_length {
                return true;
            }
            match request.start {
                BlockHashOrNumber::Number(block_number) => {
                    if headers.len() > 0 {
                        block_number != headers[0].number
                    } else {
                        false
                    }
                },
                BlockHashOrNumber::Hash(_) => false,
            }
        },
        Err(_) => true,
    }
}

/// The reputation impact of a response: only a timeout costs reputation. A closed channel
/// and a dropped connection are handled where the connection is cleaned up.
pub fn reputation_change_err(res: &Result<Vec<Header>, RequestError>) -> (r: Option<ReputationChangeKind>)
    ensures
        r == (match res {
            Err(RequestError::Timeout) => Some(ReputationChangeKind::Timeout),
            _ => None::<ReputationChangeKind>,
        }),
{
    match res {
        Err(err) => match err {
            RequestError::ChannelClosed => None,
            RequestError::ConnectionDropped => None,
            RequestError::UnsupportedCapability => None,
            RequestError::Timeout => Some(ReputationChangeKind::Timeout),
            RequestError::BadResponse => None,
        },
        Ok(_) => None,
    }
}

} // verus!
