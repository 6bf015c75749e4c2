//! A single LED of a controller.
use vstd::prelude::*;
use vstd::bytes::lemma_auto_spec_u32_to_from_le_bytes;

use crate::OpenRGBCodec;
use crate::OpenRGBError;
use crate::OpenRGBReadable;
use crate::OpenRGBWritable;
use crate::WireError;
use crate::protocol::{OpenRGBReadableSync, OpenRGBWritableSync};
use crate::string::{spec_string_wire, spec_string_wf, spec_read_string, lemma_string_round_trip, lemma_read_string_len, lemma_string_wire_len};

verus! {

/// A single LED: its name followed by its 32-bit value.
#[derive(Debug, Clone, PartialEq, Eq)]
pub struct LED {
    /// LED name.
    pub name: String,
    /// LED value.
    pub value: u32,
}

/// Mathematical model of an [`LED`].
pub struct LedView {
    /// The name's characters.
    pub name: Seq<char>,
    /// LED value.
    pub value: u32,
}

impl DeepView for LED {
    type V = LedView;

    open spec fn deep_view(&self) -> LedView {
        LedView { name: self.name.deep_view(), value: self.value }
    }
}

/// The bytes an LED encodes to.
pub open spec fn spec_led_wire(l: LED, protocol: u32) -> Seq<u8> {
    spec_string_wire(l.name@) + vstd::bytes::spec_u32_to_le_bytes(l.value)
}

/// Whether an LED can be encoded.
pub open spec fn spec_led_wf(l: LED, protocol: u32) -> bool {
    spec_string_wf(l.name@)
}

/// The mathematical parser for an LED.
pub open spec fn spec_read_led(bytes: Seq<u8>, protocol: u32) -> Result<(LedView, int), WireError> {
    match spec_read_string(bytes) {
        Err(k) => Err(k),
        Ok((name, c1)) => match u32::spec_read(bytes.skip(c1), protocol) {
            Err(k) => Err(k),
            Ok((value, c2)) => Ok((LedView { name, value }, c1 + c2)),
        },
    }
}

/// A parsed LED occupies some prefix of its bytes.
pub proof fn lemma_read_led_len(bytes: Seq<u8>, protocol: u32)
    ensures
        spec_read_led(bytes, protocol) matches Ok((v, n)) ==> 0 <= n <= bytes.len(),
{
    lemma_read_string_len(bytes);
}

impl OpenRGBWritable for LED {
    open spec fn wire(self, protocol: u32) -> Seq<u8> {
        spec_led_wire(self, protocol)
    }

    open spec fn wf(self, protocol: u32) -> bool {
        spec_led_wf(self, protocol)
    }

    proof fn wire_len_bound(self, protocol: u32) {
        lemma_string_wire_len(self.name@);
        lemma_auto_spec_u32_to_from_le_bytes();
    }

    fn size(&self, protocol: u32) -> (n: usize) {
        proof {
            lemma_string_wire_len(self.name@);
            lemma_auto_spec_u32_to_from_le_bytes();
        }
        let name_size = self.name.size(protocol);
        let value_size = self.value.size(protocol);
        name_size + value_size
    }

    fn write<S: OpenRGBWritableSync>(self, stream: &mut S, protocol: u32) -> (r: Result<
        (),
        OpenRGBError,
    >) {
        self.name.write(stream, protocol)?;
        self.value.write(stream, protocol)?;
        proof {
            assert(stream.out() =~= old(stream).out() + self.wire(protocol));
        }
        Ok(())
    }
}

impl OpenRGBReadable for LED {
    proof fn read_len_bound(bytes: Seq<u8>, protocol: u32) {
        lemma_read_string_len(bytes);
    }

    open spec fn spec_read(bytes: Seq<u8>, protocol: u32) -> Result<(LedView, int), WireError> {
        spec_read_led(bytes, protocol)
    }

    fn read<S: OpenRGBReadableSync>(stream: &mut S, protocol: u32) -> (r: Result<
        LED,
        OpenRGBError,
    >) {
        proof {
            lemma_read_string_len(old(stream).rem());
        }
        let name = String::read(stream, protocol)?;
        let value = u32::read(stream, protocol)?;
        proof {
            let (nv, c1) = spec_read_string(old(stream).rem())->Ok_0;
            let (vv, c2) = u32::spec_read(old(stream).rem().skip(c1), protocol)->Ok_0;
            assert(stream.rem() =~= old(stream).rem().skip(c1 + c2));
        }
        Ok(LED { name, value })
    }
}

impl OpenRGBCodec for LED {
    proof fn round_trip(self, tail: Seq<u8>, protocol: u32) {
        let wn = spec_string_wire(self.name@);
        let wv = self.value.wire(protocol);
        assert(self.wire(protocol) + tail =~= wn + (wv + tail));
        lemma_string_round_trip(self.name@, wv + tail);
        assert((wn + (wv + tail)).skip(wn.len() as int) =~= wv + tail);
        self.value.round_trip(tail, protocol);
    }
}

} // verus!
