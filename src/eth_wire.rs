//! Errors of the peer-to-peer handshake and of the pinger.
use vstd::prelude::*;

verus! {

/// Errors when conducting a p2p handshake.
#[derive(Clone, Copy, Debug, PartialEq, Eq, Structural)]
pub enum P2PHandshakeError {
    HelloNotInHandshake,
    NonHelloMessageInHandshake,
    NoSharedCapabilities,
    NoResponse,
    Timeout,
}

pub open spec fn handshake_error_message(e: P2PHandshakeError) -> Seq<char> {
    match e {
        P2PHandshakeError::HelloNotInHandshake => "hello message can only be recv/sent in handshake"@,
        P2PHandshakeError::NonHelloMessageInHandshake => "received non-hello message when trying to handshake"@,
        P2PHandshakeError::NoSharedCapabilities => "no capabilities shared with peer"@,
        P2PHandshakeError::NoResponse => "no response received when sending out handshake"@,
        P2PHandshakeError::Timeout => "handshake timed out"@,
    }
}

impl P2PHandshakeError {
    /// The message of the error.
    pub fn message(&self) -> (r: &'static str)
        ensures
            r@ == handshake_error_message(*self),
    {
        match self {
            P2PHandshakeError::HelloNotInHandshake => "hello message can only be recv/sent in handshake",
            P2PHandshakeError::NonHelloMessageInHandshake => "received non-hello message when trying to handshake",
            P2PHandshakeError::NoSharedCapabilities => "no capabilities shared with peer",
            P2PHandshakeError::NoResponse => "no response received when sending out handshake",
            P2PHandshakeError::Timeout => "handshake timed out",
        }
    }
}

/// An error that can occur when interacting with a pinger.
#[derive(Clone, Copy, Debug, PartialEq, Eq, Structural)]
pub enum PingerError {
    /// An unexpected pong was received while the pinger was in the `Ready` state.
    UnexpectedPong,
}

impl PingerError {
    /// The message of the error.
    pub fn message(&self) -> (r: &'static str)
        ensures
            r@ == "pong received while ready"@,
    {
        match self {
            PingerError::UnexpectedPong => "pong received while ready",
        }
    }
}

} // verus!
