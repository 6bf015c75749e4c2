//! Packet ids of the OpenRGB protocol.
use vstd::prelude::*;
use vstd::bytes::{spec_u32_to_le_bytes, spec_u32_from_le_bytes, lemma_auto_spec_u32_to_from_le_bytes};

use crate::OpenRGBCodec;
use crate::OpenRGBError;
use crate::OpenRGBReadable;
use crate::OpenRGBWritable;
use crate::WireError;
use crate::protocol::{OpenRGBReadableSync, OpenRGBWritableSync};

verus! {

/// OpenRGB protocol packet id: which operation a frame carries.
/// Decoding is strict: an id outside the known set is a bad-packet-id
/// error naming the raw value.
#[derive(Debug, Copy, Clone, PartialEq, Eq, Structural)]
pub enum PacketId {
    /// Request RGBController device count from server.
    RequestControllerCount,
    /// Request RGBController data block.
    RequestControllerData,
    /// Request OpenRGB SDK protocol version from server.
    RequestProtocolVersion,
    /// Send client name string to server.
    SetClientName,
    /// Indicate to clients that the device list has updated.
    DeviceListUpdated,
    /// Request profile list.
    RequestProfileList,
    /// Save current configuration in a new profile.
    RequestSaveProfile,
    /// Load a given profile.
    RequestLoadProfile,
    /// Delete a given profile.
    RequestDeleteProfile,
    /// Resize a zone.
    RGBControllerResizeZone,
    /// Update all LEDs.
    RGBControllerUpdateLeds,
    /// Update the LEDs of one zone.
    RGBControllerUpdateZoneLeds,
    /// Update a single LED.
    RGBControllerUpdateSingleLed,
    /// Switch to the custom mode.
    RGBControllerSetCustomMode,
    /// Update a mode.
    RGBControllerUpdateMode,
    /// Save a mode.
    RGBControllerSaveMode,
}

/// Discriminant of a packet id on the wire.
pub open spec fn spec_packet_id_code(m: PacketId) -> u32 {
    match m {
        PacketId::RequestControllerCount => 0,
        PacketId::RequestControllerData => 1,
        PacketId::RequestProtocolVersion => 40,
        PacketId::SetClientName => 50,
        PacketId::DeviceListUpdated => 100,
        PacketId::RequestProfileList => 150,
        PacketId::RequestSaveProfile => 151,
        PacketId::RequestLoadProfile => 152,
        PacketId::RequestDeleteProfile => 153,
        PacketId::RGBControllerResizeZone => 1000,
        PacketId::RGBControllerUpdateLeds => 1050,
        PacketId::RGBControllerUpdateZoneLeds => 1051,
        PacketId::RGBControllerUpdateSingleLed => 1052,
        PacketId::RGBControllerSetCustomMode => 1100,
        PacketId::RGBControllerUpdateMode => 1101,
        PacketId::RGBControllerSaveMode => 1102,
    }
}

/// The packet id a discriminant names, if any.
pub open spec fn spec_packet_id_from(v: u32) -> Option<PacketId> {
    if v == 0 {
        Some(PacketId::RequestControllerCount)
    } else if v == 1 {
        Some(PacketId::RequestControllerData)
    } else if v == 40 {
        Some(PacketId::RequestProtocolVersion)
    } else if v == 50 {
        Some(PacketId::SetClientName)
    } else if v == 100 {
        Some(PacketId::DeviceListUpdated)
    } else if v == 150 {
        Some(PacketId::RequestProfileList)
    } else if v == 151 {
        Some(PacketId::RequestSaveProfile)
    } else if v == 152 {
        Some(PacketId::RequestLoadProfile)
    } else if v == 153 {
        Some(PacketId::RequestDeleteProfile)
    } else if v == 1000 {
        Some(PacketId::RGBControllerResizeZone)
    } else if v == 1050 {
        Some(PacketId::RGBControllerUpdateLeds)
    } else if v == 1051 {
        Some(PacketId::RGBControllerUpdateZoneLeds)
    } else if v == 1052 {
        Some(PacketId::RGBControllerUpdateSingleLed)
    } else if v == 1100 {
        Some(PacketId::RGBControllerSetCustomMode)
    } else if v == 1101 {
        Some(PacketId::RGBControllerUpdateMode)
    } else if v == 1102 {
        Some(PacketId::RGBControllerSaveMode)
    } else {
        None
    }
}

impl PacketId {
    /// The discriminant this packet id travels as.
    pub fn to_u32(self) -> (r: u32)
        ensures
            r == spec_packet_id_code(self),
    {
        match self {
        PacketId::RequestControllerCount => 0,
        PacketId::RequestControllerData => 1,
        PacketId::RequestProtocolVersion => 40,
        PacketId::SetClientName => 50,
        PacketId::DeviceListUpdated => 100,
        PacketId::RequestProfileList => 150,
        PacketId::RequestSaveProfile => 151,
        PacketId::RequestLoadProfile => 152,
        PacketId::RequestDeleteProfile => 153,
        PacketId::RGBControllerResizeZone => 1000,
        PacketId::RGBControllerUpdateLeds => 1050,
        PacketId::RGBControllerUpdateZoneLeds => 1051,
        PacketId::RGBControllerUpdateSingleLed => 1052,
        PacketId::RGBControllerSetCustomMode => 1100,
        PacketId::RGBControllerUpdateMode => 1101,
        PacketId::RGBControllerSaveMode => 1102,
        }
    }

    /// The packet id a discriminant names, if any.
    pub fn from_u32(v: u32) -> (r: Option<PacketId>)
        ensures
            r == spec_packet_id_from(v),
    {
        if v == 0 {
            Some(PacketId::RequestControllerCount)
        } else if v == 1 {
            Some(PacketId::RequestControllerData)
        } else if v == 40 {
            Some(PacketId::RequestProtocolVersion)
        } else if v == 50 {
            Some(PacketId::SetClientName)
        } else if v == 100 {
            Some(PacketId::DeviceListUpdated)
        } else if v == 150 {
            Some(PacketId::RequestProfileList)
        } else if v == 151 {
            Some(PacketId::RequestSaveProfile)
        } else if v == 152 {
            Some(PacketId::RequestLoadProfile)
        } else if v == 153 {
            Some(PacketId::RequestDeleteProfile)
        } else if v == 1000 {
            Some(PacketId::RGBControllerResizeZone)
        } else if v == 1050 {
            Some(PacketId::RGBControllerUpdateLeds)
        } else if v == 1051 {
            Some(PacketId::RGBControllerUpdateZoneLeds)
        } else if v == 1052 {
            Some(PacketId::RGBControllerUpdateSingleLed)
        } else if v == 1100 {
            Some(PacketId::RGBControllerSetCustomMode)
        } else if v == 1101 {
            Some(PacketId::RGBControllerUpdateMode)
        } else if v == 1102 {
            Some(PacketId::RGBControllerSaveMode)
        } else {
            None
        }
    }
}

impl Default for PacketId {
    /// The default packet id is the controller count request.
    fn default() -> (r: Self)
        ensures
            r == PacketId::RequestControllerCount,
    {
        PacketId::RequestControllerCount
    }
}

impl DeepView for PacketId {
    type V = PacketId;

    open spec fn deep_view(&self) -> PacketId {
        *self
    }
}

impl OpenRGBWritable for PacketId {
    open spec fn wire(self, protocol: u32) -> Seq<u8> {
        spec_u32_to_le_bytes(spec_packet_id_code(self))
    }

    open spec fn wf(self, protocol: u32) -> bool {
        true
    }

    proof fn wire_len_bound(self, protocol: u32) {
        lemma_auto_spec_u32_to_from_le_bytes();
    }

    fn size(&self, protocol: u32) -> (n: usize) {
        proof {
            lemma_auto_spec_u32_to_from_le_bytes();
        }
        4
    }

    fn write<S: OpenRGBWritableSync>(self, stream: &mut S, protocol: u32) -> (r: Result<
        (),
        OpenRGBError,
    >) {
        self.to_u32().write(stream, protocol)
    }
}

impl OpenRGBReadable for PacketId {
    proof fn read_len_bound(bytes: Seq<u8>, protocol: u32) {
    }

    open spec fn spec_read(bytes: Seq<u8>, protocol: u32) -> Result<(PacketId, int), WireError> {
        if bytes.len() < 4 {
            Err(WireError::Truncated)
        } else {
            match spec_packet_id_from(spec_u32_from_le_bytes(bytes.take(4))) {
                Some(m) => Ok((m, 4)),
                None => Err(WireError::BadPacketId(spec_u32_from_le_bytes(bytes.take(4)))),
            }
        }
    }

    fn read<S: OpenRGBReadableSync>(stream: &mut S, protocol: u32) -> (r: Result<
        PacketId,
        OpenRGBError,
    >) {
        let v = u32::read(stream, protocol)?;
        match PacketId::from_u32(v) {
            Some(m) => Ok(m),
            None => Err(OpenRGBError::BadPacketID(v)),
        }
    }
}

impl OpenRGBCodec for PacketId {
    proof fn round_trip(self, tail: Seq<u8>, protocol: u32) {
        lemma_auto_spec_u32_to_from_le_bytes();
        assert((self.wire(protocol) + tail).take(4) =~= self.wire(protocol));
        assert((self.wire(protocol) + tail).skip(4) =~= tail);
    }
}

} // verus!
