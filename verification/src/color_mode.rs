//! Color mode of a controller mode: how the mode takes its colors.
use vstd::prelude::*;
use vstd::bytes::{spec_u32_to_le_bytes, spec_u32_from_le_bytes, lemma_auto_spec_u32_to_from_le_bytes};

use crate::OpenRGBCodec;
use crate::OpenRGBError;
use crate::OpenRGBReadable;
use crate::OpenRGBWritable;
use crate::WireError;
use crate::protocol::{OpenRGBReadableSync, OpenRGBWritableSync};

verus! {

/// RGB controller color mode.  Decoding is strict: a discriminant outside
/// the four named values is a protocol error.
#[derive(Debug, Copy, Clone, PartialEq, Eq, Structural)]
pub enum ColorMode {
    /// No color mode.
    NoMode,
    /// Per-LED colors.
    PerLED,
    /// Mode-specific colors.
    ModeSpecific,
    /// Random colors.
    Random,
}

/// Discriminant of a color mode on the wire.
pub open spec fn spec_color_mode_code(m: ColorMode) -> u32 {
    match m {
        ColorMode::NoMode => 0,
        ColorMode::PerLED => 1,
        ColorMode::ModeSpecific => 2,
        ColorMode::Random => 3,
    }
}

/// The color mode a discriminant names, if any.
pub open spec fn spec_color_mode_from(v: u32) -> Option<ColorMode> {
    if v == 0 {
        Some(ColorMode::NoMode)
    } else if v == 1 {
        Some(ColorMode::PerLED)
    } else if v == 2 {
        Some(ColorMode::ModeSpecific)
    } else if v == 3 {
        Some(ColorMode::Random)
    } else {
        None
    }
}

impl ColorMode {
    /// The discriminant this color mode travels as.
    pub fn to_u32(self) -> (r: u32)
        ensures
            r == spec_color_mode_code(self),
    {
        match self {
            ColorMode::NoMode => 0,
            ColorMode::PerLED => 1,
            ColorMode::ModeSpecific => 2,
            ColorMode::Random => 3,
        }
    }

    /// The color mode a discriminant names, if any.
    pub fn from_u32(v: u32) -> (r: Option<ColorMode>)
        ensures
            r == spec_color_mode_from(v),
    {
        if v == 0 {
            Some(ColorMode::NoMode)
        } else if v == 1 {
            Some(ColorMode::PerLED)
        } else if v == 2 {
            Some(ColorMode::ModeSpecific)
        } else if v == 3 {
            Some(ColorMode::Random)
        } else {
            None
        }
    }
}

impl Default for ColorMode {
    /// The default color mode is no color mode.
    fn default() -> (r: Self)
        ensures
            r == ColorMode::NoMode,
    {
        ColorMode::NoMode
    }
}

impl DeepView for ColorMode {
    type V = ColorMode;

    open spec fn deep_view(&self) -> ColorMode {
        *self
    }
}

impl OpenRGBWritable for ColorMode {
    open spec fn wire(self, protocol: u32) -> Seq<u8> {
        spec_u32_to_le_bytes(spec_color_mode_code(self))
    }

    open spec fn wf(self, protocol: u32) -> bool {
        true
    }

    proof fn wire_len_bound(self, protocol: u32) {
        lemma_auto_spec_u32_to_from_le_bytes();
    }

    fn size(&self, protocol: u32) -> (n: usize) {
        proof {
            lemma_auto_spec_u32_to_from_le_bytes();
        }
        4
    }

    fn write<S: OpenRGBWritableSync>(self, stream: &mut S, protocol: u32) -> (r: Result<
        (),
        OpenRGBError,
    >) {
        self.to_u32().write(stream, protocol)
    }
}

impl OpenRGBReadable for ColorMode {
    proof fn read_len_bound(bytes: Seq<u8>, protocol: u32) {
    }

    open spec fn spec_read(bytes: Seq<u8>, protocol: u32) -> Result<(ColorMode, int), WireError> {
        if bytes.len() < 4 {
            Err(WireError::Truncated)
        } else {
            match spec_color_mode_from(spec_u32_from_le_bytes(bytes.take(4))) {
                Some(m) => Ok((m, 4)),
                None => Err(WireError::BadValue),
            }
        }
    }

    fn read<S: OpenRGBReadableSync>(stream: &mut S, protocol: u32) -> (r: Result<
        ColorMode,
        OpenRGBError,
    >) {
        let v = u32::read(stream, protocol)?;
        match ColorMode::from_u32(v) {
            Some(m) => Ok(m),
            None => Err(OpenRGBError::ProtocolError("unknown color mode".to_owned())),
        }
    }
}

impl OpenRGBCodec for ColorMode {
    proof fn round_trip(self, tail: Seq<u8>, protocol: u32) {
        lemma_auto_spec_u32_to_from_le_bytes();
        assert((self.wire(protocol) + tail).take(4) =~= self.wire(protocol));
        assert((self.wire(protocol) + tail).skip(4) =~= tail);
    }
}

} // verus!
