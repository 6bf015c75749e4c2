//! Codec for fixed-width integers and the empty value.
//!
//! All multi-byte integers travel little-endian.  Scalars never fail to
//! encode; decoding fails only when the stream runs out of bytes.
use vstd::prelude::*;
use vstd::bytes::{
    spec_u16_to_le_bytes, spec_u16_from_le_bytes, lemma_auto_spec_u16_to_from_le_bytes,
    u16_from_le_bytes, u16_to_le_bytes, spec_u32_to_le_bytes, spec_u32_from_le_bytes,
    lemma_auto_spec_u32_to_from_le_bytes, u32_from_le_bytes, u32_to_le_bytes,
};

use crate::OpenRGBCodec;
use crate::OpenRGBError;
use crate::OpenRGBReadable;
use crate::OpenRGBWritable;
use crate::WireError;
use crate::protocol::{OpenRGBReadableSync, OpenRGBWritableSync};

verus! {

impl OpenRGBWritable for () {
    open spec fn wire(self, protocol: u32) -> Seq<u8> {
        Seq::empty()
    }

    open spec fn wf(self, protocol: u32) -> bool {
        true
    }

    proof fn wire_len_bound(self, protocol: u32) {
    }

    fn size(&self, protocol: u32) -> (n: usize) {
        0
    }

    fn write<S: OpenRGBWritableSync>(self, stream: &mut S, protocol: u32) -> (r: Result<
        (),
        OpenRGBError,
    >) {
        proof {
            assert(old(stream).out() + self.wire(protocol) =~= old(stream).out());
        }
        Ok(())
    }
}

impl OpenRGBReadable for () {
    proof fn read_len_bound(bytes: Seq<u8>, protocol: u32) {
    }

    open spec fn spec_read(bytes: Seq<u8>, protocol: u32) -> Result<((), int), WireError> {
        Ok(((), 0))
    }

    fn read<S: OpenRGBReadableSync>(stream: &mut S, protocol: u32) -> (r: Result<
        (),
        OpenRGBError,
    >) {
        proof {
            assert(old(stream).rem().skip(0) =~= old(stream).rem());
        }
        Ok(())
    }
}

impl OpenRGBCodec for () {
    proof fn round_trip(self, tail: Seq<u8>, protocol: u32) {
        assert(self.wire(protocol) + tail =~= tail);
    }
}

impl OpenRGBWritable for u8 {
    open spec fn wire(self, protocol: u32) -> Seq<u8> {
        seq![self]
    }

    open spec fn wf(self, protocol: u32) -> bool {
        true
    }

    proof fn wire_len_bound(self, protocol: u32) {
    }

    fn size(&self, protocol: u32) -> (n: usize) {
        1
    }

    fn write<S: OpenRGBWritableSync>(self, stream: &mut S, protocol: u32) -> (r: Result<
        (),
        OpenRGBError,
    >) {
        stream.write_u8(self);
        proof {
            assert(stream.out() =~= old(stream).out() + self.wire(protocol));
        }
        Ok(())
    }
}

impl OpenRGBReadable for u8 {
    proof fn read_len_bound(bytes: Seq<u8>, protocol: u32) {
    }

    open spec fn spec_read(bytes: Seq<u8>, protocol: u32) -> Result<(u8, int), WireError> {
        if bytes.len() < 1 {
            Err(WireError::Truncated)
        } else {
            Ok((bytes[0], 1))
        }
    }

    fn read<S: OpenRGBReadableSync>(stream: &mut S, protocol: u32) -> (r: Result<
        u8,
        OpenRGBError,
    >) {
        stream.read_u8()
    }
}

impl OpenRGBCodec for u8 {
    proof fn round_trip(self, tail: Seq<u8>, protocol: u32) {
        assert((self.wire(protocol) + tail)[0] == self);
        assert((self.wire(protocol) + tail).skip(1) =~= tail);
    }
}

impl OpenRGBWritable for u16 {
    open spec fn wire(self, protocol: u32) -> Seq<u8> {
        spec_u16_to_le_bytes(self)
    }

    open spec fn wf(self, protocol: u32) -> bool {
        true
    }

    proof fn wire_len_bound(self, protocol: u32) {
        lemma_auto_spec_u16_to_from_le_bytes();
    }

    fn size(&self, protocol: u32) -> (n: usize) {
        proof {
            lemma_auto_spec_u16_to_from_le_bytes();
        }
        2
    }

    fn write<S: OpenRGBWritableSync>(self, stream: &mut S, protocol: u32) -> (r: Result<
        (),
        OpenRGBError,
    >) {
        let buf = u16_to_le_bytes(self);
        proof {
            assert(buf@ == spec_u16_to_le_bytes(self));
            assert(buf@ == self.wire(protocol));
        }
        stream.write_all(buf.as_slice());
        Ok(())
    }
}

impl OpenRGBReadable for u16 {
    proof fn read_len_bound(bytes: Seq<u8>, protocol: u32) {
    }

    open spec fn spec_read(bytes: Seq<u8>, protocol: u32) -> Result<(u16, int), WireError> {
        if bytes.len() < 2 {
            Err(WireError::Truncated)
        } else {
            Ok((spec_u16_from_le_bytes(bytes.take(2)), 2))
        }
    }

    fn read<S: OpenRGBReadableSync>(stream: &mut S, protocol: u32) -> (r: Result<
        u16,
        OpenRGBError,
    >) {
        let buf = stream.read_exact(2)?;
        Ok(u16_from_le_bytes(buf.as_slice()))
    }
}

impl OpenRGBCodec for u16 {
    proof fn round_trip(self, tail: Seq<u8>, protocol: u32) {
        lemma_auto_spec_u16_to_from_le_bytes();
        assert((self.wire(protocol) + tail).take(2) =~= self.wire(protocol));
        assert((self.wire(protocol) + tail).skip(2) =~= tail);
    }
}

impl OpenRGBWritable for u32 {
    open spec fn wire(self, protocol: u32) -> Seq<u8> {
        spec_u32_to_le_bytes(self)
    }

    open spec fn wf(self, protocol: u32) -> bool {
        true
    }

    proof fn wire_len_bound(self, protocol: u32) {
        lemma_auto_spec_u32_to_from_le_bytes();
    }

    fn size(&self, protocol: u32) -> (n: usize) {
        proof {
            lemma_auto_spec_u32_to_from_le_bytes();
        }
        4
    }

    fn write<S: OpenRGBWritableSync>(self, stream: &mut S, protocol: u32) -> (r: Result<
        (),
        OpenRGBError,
    >) {
        let buf = u32_to_le_bytes(self);
        stream.write_all(buf.as_slice());
        Ok(())
    }
}

impl OpenRGBReadable for u32 {
    proof fn read_len_bound(bytes: Seq<u8>, protocol: u32) {
    }

    open spec fn spec_read(bytes: Seq<u8>, protocol: u32) -> Result<(u32, int), WireError> {
        if bytes.len() < 4 {
            Err(WireError::Truncated)
        } else {
            Ok((spec_u32_from_le_bytes(bytes.take(4)), 4))
        }
    }

    fn read<S: OpenRGBReadableSync>(stream: &mut S, protocol: u32) -> (r: Result<
        u32,
        OpenRGBError,
    >) {
        let buf = stream.read_exact(4)?;
        Ok(u32_from_le_bytes(buf.as_slice()))
    }
}

impl OpenRGBCodec for u32 {
    proof fn round_trip(self, tail: Seq<u8>, protocol: u32) {
        lemma_auto_spec_u32_to_from_le_bytes();
        assert((self.wire(protocol) + tail).take(4) =~= self.wire(protocol));
        assert((self.wire(protocol) + tail).skip(4) =~= tail);
    }
}

impl OpenRGBWritable for i32 {
    open spec fn wire(self, protocol: u32) -> Seq<u8> {
        spec_u32_to_le_bytes(self as u32)
    }

    open spec fn wf(self, protocol: u32) -> bool {
        true
    }

    proof fn wire_len_bound(self, protocol: u32) {
        lemma_auto_spec_u32_to_from_le_bytes();
    }

    fn size(&self, protocol: u32) -> (n: usize) {
        proof {
            lemma_auto_spec_u32_to_from_le_bytes();
        }
        4
    }

    fn write<S: OpenRGBWritableSync>(self, stream: &mut S, protocol: u32) -> (r: Result<
        (),
        OpenRGBError,
    >) {
        let unsigned = #[verifier::truncate] (self as u32);
        let buf = u32_to_le_bytes(unsigned);
        stream.write_all(buf.as_slice());
        Ok(())
    }
}

impl OpenRGBReadable for i32 {
    proof fn read_len_bound(bytes: Seq<u8>, protocol: u32) {
    }

    open spec fn spec_read(bytes: Seq<u8>, protocol: u32) -> Result<(i32, int), WireError> {
        if bytes.len() < 4 {
            Err(WireError::Truncated)
        } else {
            Ok((spec_u32_from_le_bytes(bytes.take(4)) as i32, 4))
        }
    }

    fn read<S: OpenRGBReadableSync>(stream: &mut S, protocol: u32) -> (r: Result<
        i32,
        OpenRGBError,
    >) {
        let buf = stream.read_exact(4)?;
        let unsigned = u32_from_le_bytes(buf.as_slice());
        Ok(#[verifier::truncate] (unsigned as i32))
    }
}

impl OpenRGBCodec for i32 {
    proof fn round_trip(self, tail: Seq<u8>, protocol: u32) {
        lemma_auto_spec_u32_to_from_le_bytes();
        assert((self.wire(protocol) + tail).take(4) =~= self.wire(protocol));
        assert((self.wire(protocol) + tail).skip(4) =~= tail);
        let x = self;
        assert((x as u32) as i32 == x) by (bit_vector);
    }
}

/// The wire carries sizes as 32-bit values; a `usize` is encodable
/// exactly when it fits that range.
impl OpenRGBWritable for usize {
    open spec fn wire(self, protocol: u32) -> Seq<u8> {
        spec_u32_to_le_bytes(self as u32)
    }

    open spec fn wf(self, protocol: u32) -> bool {
        self <= u32::MAX
    }

    proof fn wire_len_bound(self, protocol: u32) {
        lemma_auto_spec_u32_to_from_le_bytes();
    }

    fn size(&self, protocol: u32) -> (n: usize) {
        proof {
            lemma_auto_spec_u32_to_from_le_bytes();
        }
        4
    }

    fn write<S: OpenRGBWritableSync>(self, stream: &mut S, protocol: u32) -> (r: Result<
        (),
        OpenRGBError,
    >) {
        if self > u32::MAX as usize {
            return Err(OpenRGBError::ProtocolError("size does not fit 32 bits".to_owned()));
        }
        let buf = u32_to_le_bytes(self as u32);
        stream.write_all(buf.as_slice());
        Ok(())
    }
}

impl OpenRGBReadable for usize {
    proof fn read_len_bound(bytes: Seq<u8>, protocol: u32) {
    }

    open spec fn spec_read(bytes: Seq<u8>, protocol: u32) -> Result<(usize, int), WireError> {
        if bytes.len() < 4 {
            Err(WireError::Truncated)
        } else {
            Ok((spec_u32_from_le_bytes(bytes.take(4)) as usize, 4))
        }
    }

    fn read<S: OpenRGBReadableSync>(stream: &mut S, protocol: u32) -> (r: Result<
        usize,
        OpenRGBError,
    >) {
        let buf = stream.read_exact(4)?;
        Ok(u32_from_le_bytes(buf.as_slice()) as usize)
    }
}

impl OpenRGBCodec for usize {
    proof fn round_trip(self, tail: Seq<u8>, protocol: u32) {
        lemma_auto_spec_u32_to_from_le_bytes();
        assert((self.wire(protocol) + tail).take(4) =~= self.wire(protocol));
        assert((self.wire(protocol) + tail).skip(4) =~= tail);
        let x = self as u32;
        assert(spec_u32_from_le_bytes(spec_u32_to_le_bytes(x)) == x);
    }
}

} // verus!
