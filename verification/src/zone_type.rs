//! Kind of LED layout a zone has.
use vstd::prelude::*;
use vstd::bytes::{spec_u32_to_le_bytes, spec_u32_from_le_bytes, lemma_auto_spec_u32_to_from_le_bytes};

use crate::OpenRGBCodec;
use crate::OpenRGBError;
use crate::OpenRGBReadable;
use crate::OpenRGBWritable;
use crate::WireError;
use crate::protocol::{OpenRGBReadableSync, OpenRGBWritableSync};

verus! {

/// Kind of LED layout a zone has.  Decoding is strict: a discriminant
/// outside the three named values is a protocol error.
#[derive(Debug, Copy, Clone, PartialEq, Eq, Structural)]
pub enum ZoneType {
    /// Single zone.
    Single,
    /// Linear zone.
    Linear,
    /// Matrix zone.
    Matrix,
}

/// Discriminant of a zone type on the wire.
pub open spec fn spec_zone_type_code(m: ZoneType) -> u32 {
    match m {
        ZoneType::Single => 0,
        ZoneType::Linear => 1,
        ZoneType::Matrix => 2,
    }
}

/// The zone type a discriminant names, if any.
pub open spec fn spec_zone_type_from(v: u32) -> Option<ZoneType> {
    if v == 0 {
        Some(ZoneType::Single)
    } else if v == 1 {
        Some(ZoneType::Linear)
    } else if v == 2 {
        Some(ZoneType::Matrix)
    } else {
        None
    }
}

impl ZoneType {
    /// The discriminant this zone type travels as.
    pub fn to_u32(self) -> (r: u32)
        ensures
            r == spec_zone_type_code(self),
    {
        match self {
        ZoneType::Single => 0,
        ZoneType::Linear => 1,
        ZoneType::Matrix => 2,
        }
    }

    /// The zone type a discriminant names, if any.
    pub fn from_u32(v: u32) -> (r: Option<ZoneType>)
        ensures
            r == spec_zone_type_from(v),
    {
        if v == 0 {
            Some(ZoneType::Single)
        } else if v == 1 {
            Some(ZoneType::Linear)
        } else if v == 2 {
            Some(ZoneType::Matrix)
        } else {
            None
        }
    }
}

impl DeepView for ZoneType {
    type V = ZoneType;

    open spec fn deep_view(&self) -> ZoneType {
        *self
    }
}

impl OpenRGBWritable for ZoneType {
    open spec fn wire(self, protocol: u32) -> Seq<u8> {
        spec_u32_to_le_bytes(spec_zone_type_code(self))
    }

    open spec fn wf(self, protocol: u32) -> bool {
        true
    }

    proof fn wire_len_bound(self, protocol: u32) {
        lemma_auto_spec_u32_to_from_le_bytes();
    }

    fn size(&self, protocol: u32) -> (n: usize) {
        proof {
            lemma_auto_spec_u32_to_from_le_bytes();
        }
        4
    }

    fn write<S: OpenRGBWritableSync>(self, stream: &mut S, protocol: u32) -> (r: Result<
        (),
        OpenRGBError,
    >) {
        self.to_u32().write(stream, protocol)
    }
}

impl OpenRGBReadable for ZoneType {
    proof fn read_len_bound(bytes: Seq<u8>, protocol: u32) {
    }

    open spec fn spec_read(bytes: Seq<u8>, protocol: u32) -> Result<(ZoneType, int), WireError> {
        if bytes.len() < 4 {
            Err(WireError::Truncated)
        } else {
            match spec_zone_type_from(spec_u32_from_le_bytes(bytes.take(4))) {
                Some(m) => Ok((m, 4)),
                None => Err(WireError::BadValue),
            }
        }
    }

    fn read<S: OpenRGBReadableSync>(stream: &mut S, protocol: u32) -> (r: Result<
        ZoneType,
        OpenRGBError,
    >) {
        let v = u32::read(stream, protocol)?;
        match ZoneType::from_u32(v) {
            Some(m) => Ok(m),
            None => Err(OpenRGBError::ProtocolError("invalid zone type".to_owned())),
        }
    }
}

impl OpenRGBCodec for ZoneType {
    proof fn round_trip(self, tail: Seq<u8>, protocol: u32) {
        lemma_auto_spec_u32_to_from_le_bytes();
        assert((self.wire(protocol) + tail).take(4) =~= self.wire(protocol));
        assert((self.wire(protocol) + tail).skip(4) =~= tail);
    }
}

} // verus!
