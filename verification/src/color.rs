//! A single RGB color value.
use vstd::prelude::*;

use crate::OpenRGBCodec;
use crate::OpenRGBError;
use crate::OpenRGBReadable;
use crate::OpenRGBWritable;
use crate::WireError;
use crate::protocol::{OpenRGBReadableSync, OpenRGBWritableSync};

verus! {

/// RGB controller color: three channel bytes.  On the wire a color takes
/// four bytes: the channels and one padding byte, written as zero and
/// ignored on read.
#[derive(Debug, Default, Copy, Clone, PartialEq, Eq, Structural)]
pub struct Color {
    /// Red channel.
    pub r: u8,
    /// Green channel.
    pub g: u8,
    /// Blue channel.
    pub b: u8,
}

impl DeepView for Color {
    type V = Color;

    open spec fn deep_view(&self) -> Color {
        *self
    }
}

impl OpenRGBWritable for Color {
    open spec fn wire(self, protocol: u32) -> Seq<u8> {
        seq![self.r, self.g, self.b, 0u8]
    }

    open spec fn wf(self, protocol: u32) -> bool {
        true
    }

    proof fn wire_len_bound(self, protocol: u32) {
    }

    fn size(&self, protocol: u32) -> (n: usize) {
        4
    }

    fn write<S: OpenRGBWritableSync>(self, stream: &mut S, protocol: u32) -> (r: Result<
        (),
        OpenRGBError,
    >) {
        let buf: [u8; 4] = [self.r, self.g, self.b, 0u8];
        stream.write_all(buf.as_slice());
        proof {
            assert(buf@ =~= self.wire(protocol));
        }
        Ok(())
    }
}

impl OpenRGBReadable for Color {
    proof fn read_len_bound(bytes: Seq<u8>, protocol: u32) {
    }

    open spec fn spec_read(bytes: Seq<u8>, protocol: u32) -> Result<(Color, int), WireError> {
        if bytes.len() < 4 {
            Err(WireError::Truncated)
        } else {
            Ok((Color { r: bytes[0], g: bytes[1], b: bytes[2] }, 4))
        }
    }

    fn read<S: OpenRGBReadableSync>(stream: &mut S, protocol: u32) -> (r: Result<
        Color,
        OpenRGBError,
    >) {
        let buf = stream.read_exact(4)?;
        Ok(Color { r: buf[0], g: buf[1], b: buf[2] })
    }
}

impl OpenRGBCodec for Color {
    proof fn round_trip(self, tail: Seq<u8>, protocol: u32) {
        assert((self.wire(protocol) + tail).skip(4) =~= tail);
    }
}

} // verus!
