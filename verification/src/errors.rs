//! Error taxonomy of the supervisor.

use vstd::prelude::*;

verus! {

/// A violation of the wire protocol.  The connection it occurred on is
/// dropped; the supervisor and the plugin process are unaffected.
#[derive(Debug, Clone, PartialEq, Eq, Structural)]
pub enum ProtocolError {
    /// A frame declared a length above the hard cap.
    FrameTooLarge,
    /// A frame payload was not a well-formed envelope.
    MalformedEnvelope,
    /// A response carried a `request_id` other than the request's.
    RequestIdMismatch,
}

impl ProtocolError {
    /// Short machine-readable name of the error.
    pub fn name(&self) -> (r: &'static str)
        ensures
            r@ == self.spec_name(),
    {
        match self {
            ProtocolError::FrameTooLarge => "frame_too_large",
            ProtocolError::MalformedEnvelope => "malformed_envelope",
            ProtocolError::RequestIdMismatch => "request_id_mismatch",
        }
    }

    /// Name of the error as a specification-level value.
    pub open spec fn spec_name(&self) -> Seq<char> {
        match self {
            ProtocolError::FrameTooLarge => "frame_too_large"@,
            ProtocolError::MalformedEnvelope => "malformed_envelope"@,
            ProtocolError::RequestIdMismatch => "request_id_mismatch"@,
        }
    }
}

/// Why a request could not be forwarded to a plugin.
#[derive(Debug, Clone, PartialEq, Eq, Structural)]
pub enum ForwardError {
    /// The plugin is disabled, not running, or its socket is missing.
    PluginUnavailable,
    /// The round-trip deadline elapsed; the plugin is not killed.
    PluginTimeout,
    /// The connection failed or the reply broke the protocol.
    BadGateway,
}

} // verus!
