//! What can go wrong, inside the bus and at its surface.

use crate::version::Version;
use vstd::prelude::*;

verus! {

/// The error of `bincode` when a value cannot be serialized. It is carried
/// to the caller and never looked into.
#[verifier::external_type_specification]
#[verifier::external_body]
pub struct ExEncodeError(bincode::error::EncodeError);

/// The error of `bincode` when bytes cannot be deserialized. It is carried
/// to the caller and never looked into.
#[verifier::external_type_specification]
#[verifier::external_body]
pub struct ExDecodeError(bincode::error::DecodeError);

/// The errors that the parts of the bus report to each other.
#[derive(Debug)]
pub enum Error {
    /// A payload could not be serialized.
    Encode(bincode::error::EncodeError),
    /// A payload could not be deserialized.
    Decode(bincode::error::DecodeError),
    /// The receiver knows no payload type with the tag of the message.
    TypeUuidNotFound,
    Timeout,
    /// The peer has gone; a frame that cannot be taken apart counts as that.
    Disconnect,
    /// The peer speaks the given version, which is not compatible.
    VersionMismatch(Version),
    TokenMismatch,
    IdentifierInUse,
    IdentifierNotInUse,
    PermissionDenied,
    MemoryRegionMapping,
    /// A selector or a payload is longer than a frame can tell, or a message
    /// has more regions than its selector can count.
    FrameTooLarge,
    Unknown,
}

/// Why joining a bus failed.
#[derive(Debug, Copy, Clone, PartialEq, Eq)]
pub enum JoinError {
    VersionMismatch(Version),
    TokenMismatch,
    Timeout,
    PermissionDenied,
}

/// Why sending a message failed.
#[derive(Debug, Copy, Clone, PartialEq, Eq)]
pub enum SendError {
    Timeout,
    VersionMismatch(Version),
    TokenMismatch,
    PermissionDenied,
}

/// Why receiving a message failed.
#[derive(Debug)]
pub enum RecvError {
    Decode(bincode::error::DecodeError),
    Timeout,
    VersionMismatch(Version),
    TokenMismatch,
    PermissionDenied,
}

impl From<JoinError> for SendError {
    fn from(value: JoinError) -> (e: SendError) {
        match value {
            JoinError::VersionMismatch(v) => SendError::VersionMismatch(v),
            JoinError::TokenMismatch => SendError::TokenMismatch,
            JoinError::Timeout => SendError::Timeout,
            JoinError::PermissionDenied => SendError::PermissionDenied,
        }
    }
}

impl vstd::std_specs::convert::FromSpecImpl<JoinError> for SendError {
    open spec fn obeys_from_spec() -> bool {
        true
    }

    open spec fn from_spec(value: JoinError) -> SendError {
        match value {
            JoinError::VersionMismatch(v) => SendError::VersionMismatch(v),
            JoinError::TokenMismatch => SendError::TokenMismatch,
            JoinError::Timeout => SendError::Timeout,
            JoinError::PermissionDenied => SendError::PermissionDenied,
        }
    }
}

impl From<JoinError> for RecvError {
    fn from(value: JoinError) -> (e: RecvError) {
        match value {
            JoinError::VersionMismatch(v) => RecvError::VersionMismatch(v),
            JoinError::TokenMismatch => RecvError::TokenMismatch,
            JoinError::Timeout => RecvError::Timeout,
            JoinError::PermissionDenied => RecvError::PermissionDenied,
        }
    }
}

impl vstd::std_specs::convert::FromSpecImpl<JoinError> for RecvError {
    open spec fn obeys_from_spec() -> bool {
        true
    }

    open spec fn from_spec(value: JoinError) -> RecvError {
        match value {
            JoinError::VersionMismatch(v) => RecvError::VersionMismatch(v),
            JoinError::TokenMismatch => RecvError::TokenMismatch,
            JoinError::Timeout => RecvError::Timeout,
            JoinError::PermissionDenied => RecvError::PermissionDenied,
        }
    }
}

} // verus!
