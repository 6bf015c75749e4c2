//! Category of RGB device a controller drives.
use vstd::prelude::*;
use vstd::bytes::{spec_u32_to_le_bytes, spec_u32_from_le_bytes, lemma_auto_spec_u32_to_from_le_bytes};

use crate::OpenRGBCodec;
use crate::OpenRGBError;
use crate::OpenRGBReadable;
use crate::OpenRGBWritable;
use crate::WireError;
use crate::protocol::{OpenRGBReadableSync, OpenRGBWritableSync};

verus! {

/// RGB controller device type.  Decoding is lenient: a discriminant
/// outside the named set falls back to [`DeviceType::Unknown`], never an
/// error, so that device categories newer than this codec still decode.
#[derive(Debug, Copy, Clone, PartialEq, Eq, Structural)]
pub enum DeviceType {
    /// Motherboard.
    Motherboard,
    /// DRAM.
    DRAM,
    /// GPU.
    GPU,
    /// Cooler.
    Cooler,
    /// LED strip.
    LEDStrip,
    /// Keyboard.
    Keyboard,
    /// Mouse.
    Mouse,
    /// Mouse mat.
    MouseMat,
    /// Headset.
    Headset,
    /// Headset stand.
    HeadsetStand,
    /// Gamepad.
    Gamepad,
    /// Light.
    Light,
    /// Speaker.
    Speaker,
    /// Virtual device.
    Virtual,
    /// Unknown device type, the fallback of lenient decoding.
    Unknown,
}

/// Discriminant of a device type on the wire.
pub open spec fn spec_device_type_code(m: DeviceType) -> u32 {
    match m {
        DeviceType::Motherboard => 0,
        DeviceType::DRAM => 1,
        DeviceType::GPU => 2,
        DeviceType::Cooler => 3,
        DeviceType::LEDStrip => 4,
        DeviceType::Keyboard => 5,
        DeviceType::Mouse => 6,
        DeviceType::MouseMat => 7,
        DeviceType::Headset => 8,
        DeviceType::HeadsetStand => 9,
        DeviceType::Gamepad => 10,
        DeviceType::Light => 11,
        DeviceType::Speaker => 12,
        DeviceType::Virtual => 13,
        DeviceType::Unknown => 14,
    }
}

/// The device type a discriminant names; a value outside the known set
/// falls back to the designated unknown value.
pub open spec fn spec_device_type_from(v: u32) -> DeviceType {
    if v == 0 {
        DeviceType::Motherboard
        } else if v == 1 {
            DeviceType::DRAM
        } else if v == 2 {
            DeviceType::GPU
        } else if v == 3 {
            DeviceType::Cooler
        } else if v == 4 {
            DeviceType::LEDStrip
        } else if v == 5 {
            DeviceType::Keyboard
        } else if v == 6 {
            DeviceType::Mouse
        } else if v == 7 {
            DeviceType::MouseMat
        } else if v == 8 {
            DeviceType::Headset
        } else if v == 9 {
            DeviceType::HeadsetStand
        } else if v == 10 {
            DeviceType::Gamepad
        } else if v == 11 {
            DeviceType::Light
        } else if v == 12 {
            DeviceType::Speaker
        } else if v == 13 {
            DeviceType::Virtual
    } else {
        DeviceType::Unknown
    }
}

impl DeviceType {
    /// The discriminant this device type travels as.
    pub fn to_u32(self) -> (r: u32)
        ensures
            r == spec_device_type_code(self),
    {
        match self {
        DeviceType::Motherboard => 0,
        DeviceType::DRAM => 1,
        DeviceType::GPU => 2,
        DeviceType::Cooler => 3,
        DeviceType::LEDStrip => 4,
        DeviceType::Keyboard => 5,
        DeviceType::Mouse => 6,
        DeviceType::MouseMat => 7,
        DeviceType::Headset => 8,
        DeviceType::HeadsetStand => 9,
        DeviceType::Gamepad => 10,
        DeviceType::Light => 11,
        DeviceType::Speaker => 12,
        DeviceType::Virtual => 13,
        DeviceType::Unknown => 14,
        }
    }

    /// The device type a discriminant names, falling back to the unknown value.
    pub fn from_u32(v: u32) -> (r: DeviceType)
        ensures
            r == spec_device_type_from(v),
    {
        if v == 0 {
            DeviceType::Motherboard
            } else if v == 1 {
                DeviceType::DRAM
            } else if v == 2 {
                DeviceType::GPU
            } else if v == 3 {
                DeviceType::Cooler
            } else if v == 4 {
                DeviceType::LEDStrip
            } else if v == 5 {
                DeviceType::Keyboard
            } else if v == 6 {
                DeviceType::Mouse
            } else if v == 7 {
                DeviceType::MouseMat
            } else if v == 8 {
                DeviceType::Headset
            } else if v == 9 {
                DeviceType::HeadsetStand
            } else if v == 10 {
                DeviceType::Gamepad
            } else if v == 11 {
                DeviceType::Light
            } else if v == 12 {
                DeviceType::Speaker
            } else if v == 13 {
                DeviceType::Virtual
        } else {
            DeviceType::Unknown
        }
    }
}

impl DeepView for DeviceType {
    type V = DeviceType;

    open spec fn deep_view(&self) -> DeviceType {
        *self
    }
}

impl OpenRGBWritable for DeviceType {
    open spec fn wire(self, protocol: u32) -> Seq<u8> {
        spec_u32_to_le_bytes(spec_device_type_code(self))
    }

    open spec fn wf(self, protocol: u32) -> bool {
        true
    }

    proof fn wire_len_bound(self, protocol: u32) {
        lemma_auto_spec_u32_to_from_le_bytes();
    }

    fn size(&self, protocol: u32) -> (n: usize) {
        proof {
            lemma_auto_spec_u32_to_from_le_bytes();
        }
        4
    }

    fn write<S: OpenRGBWritableSync>(self, stream: &mut S, protocol: u32) -> (r: Result<
        (),
        OpenRGBError,
    >) {
        self.to_u32().write(stream, protocol)
    }
}

impl OpenRGBReadable for DeviceType {
    proof fn read_len_bound(bytes: Seq<u8>, protocol: u32) {
    }

    open spec fn spec_read(bytes: Seq<u8>, protocol: u32) -> Result<(DeviceType, int), WireError> {
        if bytes.len() < 4 {
            Err(WireError::Truncated)
        } else {
            Ok((spec_device_type_from(spec_u32_from_le_bytes(bytes.take(4))), 4))
        }
    }

    fn read<S: OpenRGBReadableSync>(stream: &mut S, protocol: u32) -> (r: Result<
        DeviceType,
        OpenRGBError,
    >) {
        let v = u32::read(stream, protocol)?;
        Ok(DeviceType::from_u32(v))
    }
}

/// Lenient decoding never fails: any four bytes decode to some device
/// type, with unknown discriminants falling back to the unknown value.
pub proof fn lemma_device_type_read_total(bytes: Seq<u8>, protocol: u32)
    ensures
        bytes.len() >= 4 ==> DeviceType::spec_read(bytes, protocol) is Ok,
        bytes.len() < 4 ==> DeviceType::spec_read(bytes, protocol) == Err::<
            (DeviceType, int),
            WireError,
        >(WireError::Truncated),
{
}

impl OpenRGBCodec for DeviceType {
    proof fn round_trip(self, tail: Seq<u8>, protocol: u32) {
        lemma_auto_spec_u32_to_from_le_bytes();
        assert((self.wire(protocol) + tail).take(4) =~= self.wire(protocol));
        assert((self.wire(protocol) + tail).skip(4) =~= tail);
    }
}

} // verus!
