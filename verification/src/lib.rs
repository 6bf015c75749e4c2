//! Codec for the OpenRGB SDK wire protocol.
//!
//! The protocol exchanges length-framed binary packets over a byte
//! connection.  Every wire-visible value — scalars, strings, sequences,
//! enums, flag sets and the nested controller records — implements the two
//! capabilities below: [`OpenRGBWritable`] states the exact byte sequence a
//! value encodes to and appends it to an output stream, and
//! [`OpenRGBReadable`] parses a value back from an input stream.  The
//! byte-level meaning of each type is pinned down by the spec functions
//! [`OpenRGBWritable::wire`] and [`OpenRGBReadable::spec_read`], and every
//! implementation is verified against them; [`OpenRGBCodec::round_trip`]
//! proves that the two always agree.
use vstd::prelude::*;

pub use crate::color::Color;
pub use crate::color_mode::ColorMode;
pub use crate::controller::Controller;
pub use crate::controller::ControllerView;
pub use crate::device_type::DeviceType;
pub use crate::direction::Direction;
pub use crate::error::OpenRGBError;
pub use crate::error::WireError;
pub use crate::error::err_matches;
pub use crate::led::LED;
pub use crate::led::LedView;
pub use crate::zone::Matrix;
pub use crate::zone::MatrixView;
pub use crate::zone::Zone;
pub use crate::zone::ZoneView;
pub use crate::zone_type::ZoneType;
pub use crate::mode::Mode;
pub use crate::mode::ModeView;
pub use crate::mode_flag::MODE_FLAG_MASK;
pub use crate::mode_flag::ModeFlag;
pub use crate::mode_flag::ModeFlags;
pub use crate::packet::PacketId;
pub use crate::packets::Packet;
pub use crate::packets::PacketBody;
pub use crate::packets::RequestControllerCount;
pub use crate::packets::RequestControllerCountResponse;
pub use crate::packets::RequestControllerData;
pub use crate::packets::RequestPacket;
pub use crate::packets::RequestPacketBody;
pub use crate::packets::Requests;
pub use crate::packets::ResponsePacketBody;
pub use crate::protocol::Connection;
pub use crate::protocol::Header;
pub use crate::protocol::OpenRGBReadableSync;
pub use crate::protocol::OpenRGBSync;
pub use crate::protocol::OpenRGBWritableSync;
pub use crate::protocol::ReadStream;
pub use crate::protocol::WriteStream;

pub mod color;
pub mod color_mode;
pub mod controller;
pub mod device_type;
pub mod direction;
pub mod error;
pub mod led;
pub mod mode;
pub mod mode_flag;
pub mod packet;
pub mod packets;
pub mod primitive;
pub mod protocol;
pub mod string;
pub mod tuple;
pub mod vec;
pub mod zone;
pub mod zone_type;

verus! {

/// Protocol version this crate implements.
pub const DEFAULT_PROTOCOL: u32 = 3;

/// A value that can be written to the wire.
///
/// `wire` is the byte sequence the value stands for; `wf` says when the
/// value can be encoded at all (every length fits its length field and the
/// whole encoding fits the 32-bit range a frame header can declare).
/// `size` computes the encoded length before any byte is written, and
/// `write` emits exactly the bytes `wire` names.
pub trait OpenRGBWritable: Sized + DeepView {
    /// The exact bytes this value encodes to.
    spec fn wire(self, protocol: u32) -> Seq<u8>;

    /// Whether this value can be encoded.
    spec fn wf(self, protocol: u32) -> bool;

    /// Every encodable value fits the 32-bit length range of a frame header.
    proof fn wire_len_bound(self, protocol: u32)
        requires
            self.wf(protocol),
        ensures
            self.wire(protocol).len() <= u32::MAX,
    ;

    /// Length in bytes of this value's encoding.
    fn size(&self, protocol: u32) -> (n: usize)
        requires
            self.wf(protocol),
        ensures
            n == self.wire(protocol).len(),
    ;

    /// Append this value's encoding to `stream`.  Succeeds exactly on
    /// encodable values, and then appends exactly [`Self::wire`]; a value
    /// that cannot be encoded is rejected as a protocol error and leaves
    /// the stream untouched.
    fn write<S: crate::protocol::OpenRGBWritableSync>(
        self,
        stream: &mut S,
        protocol: u32,
    ) -> (r: Result<(), OpenRGBError>)
        ensures
            r is Ok <==> self.wf(protocol),
            r is Ok ==> final(stream).out() == old(stream).out() + self.wire(protocol),
            !(r is Ok) ==> final(stream).out() == old(stream).out(),
            r matches Err(e) ==> e is ProtocolError,
    ;
}

/// A value that can be read back from the wire.
///
/// `spec_read` is the mathematical parser: given the unread bytes it
/// yields either the parsed value's model and the number of bytes the
/// value occupies, or the class of failure.  `read` behaves exactly as
/// `spec_read` says, consuming the parsed bytes on success.
pub trait OpenRGBReadable: Sized + DeepView {
    /// The mathematical parser for this type.
    spec fn spec_read(bytes: Seq<u8>, protocol: u32) -> Result<(Self::V, int), WireError>;

    /// A parsed value occupies some prefix of the bytes it was parsed from.
    proof fn read_len_bound(bytes: Seq<u8>, protocol: u32)
        ensures
            Self::spec_read(bytes, protocol) matches Ok((v, n)) ==> 0 <= n <= bytes.len(),
    ;

    /// Parse one value from the stream.  On success the parsed prefix is
    /// consumed; on failure the error class of [`Self::spec_read`] tells
    /// which [`OpenRGBError`] is returned.
    fn read<S: crate::protocol::OpenRGBReadableSync>(
        stream: &mut S,
        protocol: u32,
    ) -> (r: Result<Self, OpenRGBError>)
        ensures
            match Self::spec_read(old(stream).rem(), protocol) {
                Ok((v, n)) => {
                    &&& r matches Ok(w) && w.deep_view() == v
                    &&& final(stream).rem() == old(stream).rem().skip(n)
                },
                Err(k) => r matches Err(e) && err_matches(e, k),
            },
    ;
}

/// The two capabilities agree: whatever an encodable value writes, the
/// parser reads back as the same value, leaving any following bytes alone.
pub trait OpenRGBCodec: OpenRGBWritable + OpenRGBReadable {
    /// Round trip: parsing the encoding of an encodable value yields that
    /// value's model and consumes exactly the encoding.
    proof fn round_trip(self, tail: Seq<u8>, protocol: u32)
        requires
            self.wf(protocol),
        ensures
            Self::spec_read(self.wire(protocol) + tail, protocol) == Ok::<(Self::V, int), WireError>(
                (self.deep_view(), self.wire(protocol).len() as int),
            ),
    ;
}

} // verus!
