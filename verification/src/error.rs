//! Errors reported by the codec and by the framing layer.
use vstd::prelude::*;

verus! {

/// Error returned by every read or write operation of the protocol.
#[derive(Debug)]
pub enum OpenRGBError {
    /// Failed opening a connection to an OpenRGB server.
    ConnectionError(),
    /// Communication failure: the stream ended before the value did,
    /// or an I/O error occurred in the transport.
    CommunicationError(),
    /// Structural violation of the wire format, with a description.
    ProtocolError(String),
    /// The peer does not support the operation.
    UnsupportedOperation {
        /// Protocol version in use.
        current_protocol_version: u32,
        /// Minimum protocol version required by the operation.
        min_protocol_version: u32,
    },
    /// A packet id field held this value, which names no known packet.
    BadPacketID(u32),
    /// A magic field held this byte where a marker byte was expected.
    BadMagic(u8),
    /// A mode flag field held this value, which has bits outside the known mask.
    BadFlags(u32),
    /// The response frame names a different device than the request did.
    DeviceIDMismatch {
        /// Device id of the request.
        expected: u32,
        /// Device id of the response.
        got: u32,
    },
    /// The response frame names a different packet than the request did.
    PacketIDMismatch {
        /// Packet id of the request.
        expected: u32,
        /// Packet id of the response.
        got: u32,
    },
}

/// Spec-level class of a decode failure.  The contracts of the reading
/// functions state, through [`err_matches`], which [`OpenRGBError`] each
/// class turns into.
pub enum WireError {
    /// The bytes ran out before the value was complete.
    Truncated,
    /// A magic byte did not match; carries the offending byte.
    BadMagic(u8),
    /// A packet id was not in the known set; carries the raw value.
    BadPacketId(u32),
    /// A flag set had bits outside the known mask; carries the raw value.
    BadFlags(u32),
    /// A discriminant or size field held a value the format does not allow.
    BadValue,
    /// A string's bytes were not well-formed text.
    BadText,
    /// The response header named another device; carries expected and actual.
    WrongDevice(u32, u32),
    /// The response header named another packet; carries expected and actual.
    WrongPacket(u32, u32),
    /// A frame body did not have the length its header declared.
    WrongLength,
    /// The packet id is known but this implementation does not serve it.
    Unsupported,
}

/// Which executable error each spec-level failure class announces.
pub open spec fn err_matches(e: OpenRGBError, k: WireError) -> bool {
    match k {
        WireError::Truncated => e is CommunicationError,
        WireError::BadMagic(b) => e == OpenRGBError::BadMagic(b),
        WireError::BadPacketId(v) => e == OpenRGBError::BadPacketID(v),
        WireError::BadFlags(v) => e == OpenRGBError::BadFlags(v),
        WireError::BadValue => e is ProtocolError,
        WireError::BadText => e is CommunicationError,
        WireError::WrongDevice(exp, got) => e == (OpenRGBError::DeviceIDMismatch {
            expected: exp,
            got: got,
        }),
        WireError::WrongPacket(exp, got) => e == (OpenRGBError::PacketIDMismatch {
            expected: exp,
            got: got,
        }),
        WireError::WrongLength => e is ProtocolError,
        WireError::Unsupported => e is UnsupportedOperation,
    }
}

impl OpenRGBError {
    /// A short human-readable account of the error.
    pub fn describe(&self) -> String {
        match self {
            OpenRGBError::ConnectionError() => "connection failed".to_owned(),
            OpenRGBError::CommunicationError() => "communication failed".to_owned(),
            OpenRGBError::ProtocolError(msg) => msg.clone(),
            OpenRGBError::UnsupportedOperation { .. } => "unsupported operation".to_owned(),
            OpenRGBError::BadPacketID(_) => "bad packet id".to_owned(),
            OpenRGBError::BadMagic(_) => "bad magic byte".to_owned(),
            OpenRGBError::BadFlags(_) => "bad mode flags".to_owned(),
            OpenRGBError::DeviceIDMismatch { .. } => "device id mismatch".to_owned(),
            OpenRGBError::PacketIDMismatch { .. } => "packet id mismatch".to_owned(),
        }
    }
}

} // verus!
