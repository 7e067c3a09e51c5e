//! The ways in which relaying a connection fails.

use vstd::prelude::*;

verus! {

/// Why a codec or a session gave up. None of these is retried: a failed relay ends its
/// session.
#[derive(Clone, Copy, Debug, PartialEq, Eq, Structural)]
pub enum ProxyError {
    /// The peer closed the connection: a read gave no bytes.
    Disconnected,
    /// A frame, read or about to be written, is longer than the protocol allows.
    FrameTooLarge,
    /// The bytes cannot be a frame under the compression mode in force.
    ProtocolDesync,
    /// The compressor reported a failure.
    CompressionFailed,
}

impl ProxyError {
    /// Whether this is an ordinary end of a connection rather than a fault.
    pub fn is_disconnect(&self) -> (b: bool)
        ensures
            b == (*self == ProxyError::Disconnected),
    {
        match self {
            ProxyError::Disconnected => true,
            _ => false,
        }
    }

    /// A short description for a log line.
    pub fn message(&self) -> (text: &'static str)
        ensures
            text@ == match *self {
                ProxyError::Disconnected => "unexpected end of file"@,
                ProxyError::FrameTooLarge => "packet exceeds maximum length"@,
                ProxyError::ProtocolDesync => "malformed packet"@,
                ProxyError::CompressionFailed => "compression failed"@,
            },
    {
        match self {
            ProxyError::Disconnected => "unexpected end of file",
            ProxyError::FrameTooLarge => "packet exceeds maximum length",
            ProxyError::ProtocolDesync => "malformed packet",
            ProxyError::CompressionFailed => "compression failed",
        }
    }
}

} // verus!
