//! Codec for strings.
//!
//! A string travels as a 16-bit length equal to its byte count plus one,
//! the raw UTF-8 bytes, and a single zero terminator.  Reading takes the
//! length, takes that many bytes, drops the trailing byte and decodes the
//! rest as UTF-8; malformed text is a communication error.
use vstd::prelude::*;
use vstd::bytes::{spec_u16_to_le_bytes, spec_u16_from_le_bytes, lemma_auto_spec_u16_to_from_le_bytes};
use vstd::utf8::{valid_utf8, decode_utf8, encode_utf8, encode_utf8_valid_utf8, encode_utf8_decode_utf8};

use crate::OpenRGBCodec;
use crate::OpenRGBError;
use crate::OpenRGBReadable;
use crate::OpenRGBWritable;
use crate::WireError;
use crate::protocol::{OpenRGBReadableSync, OpenRGBWritableSync};

verus! {

/// The longest byte count a string can travel with: its length field
/// carries the byte count plus one in sixteen bits.
pub const MAX_STRING_BYTES: u16 = 0xfffe;

/// Relies on `String::from_utf8`: it succeeds exactly on valid UTF-8
/// input, and the string it returns decodes those bytes.
#[verifier::external_body]
fn string_from_utf8(bytes: Vec<u8>) -> (r: Option<String>)
    ensures
        r is Some <==> valid_utf8(bytes@),
        r matches Some(s) ==> s@ == decode_utf8(bytes@),
{
    String::from_utf8(bytes).ok()
}

/// The bytes a string of the given characters travels as.
pub open spec fn spec_string_wire(chars: Seq<char>) -> Seq<u8> {
    let payload = encode_utf8(chars);
    spec_u16_to_le_bytes((payload.len() + 1) as u16) + payload + seq![0u8]
}

/// Whether a string of the given characters can be encoded: its UTF-8
/// byte count must fit the 16-bit length field.
pub open spec fn spec_string_wf(chars: Seq<char>) -> bool {
    encode_utf8(chars).len() <= MAX_STRING_BYTES
}

/// The mathematical parser for a string.
pub open spec fn spec_read_string(bytes: Seq<u8>) -> Result<(Seq<char>, int), WireError> {
    if bytes.len() < 2 {
        Err(WireError::Truncated)
    } else {
        let n = spec_u16_from_le_bytes(bytes.take(2)) as int;
        if bytes.len() < 2 + n {
            Err(WireError::Truncated)
        } else {
            let payload = if n == 0 {
                Seq::<u8>::empty()
            } else {
                bytes.subrange(2, 2 + n - 1)
            };
            if valid_utf8(payload) {
                Ok((decode_utf8(payload), 2 + n))
            } else {
                Err(WireError::BadText)
            }
        }
    }
}

/// Round trip at the spec level: the parser reads an encodable string's
/// bytes back as its characters.
pub proof fn lemma_string_round_trip(chars: Seq<char>, tail: Seq<u8>)
    requires
        spec_string_wf(chars),
    ensures
        spec_read_string(spec_string_wire(chars) + tail) == Ok::<_, WireError>((
            chars,
            spec_string_wire(chars).len() as int,
        )),
{
    lemma_auto_spec_u16_to_from_le_bytes();
    encode_utf8_valid_utf8(chars);
    encode_utf8_decode_utf8(chars);
    let payload = encode_utf8(chars);
    let w = spec_string_wire(chars);
    let n = payload.len() + 1;
    assert((w + tail).take(2) =~= spec_u16_to_le_bytes(n as u16));
    assert((w + tail).subrange(2, 2 + n - 1) =~= payload);
}

/// A string's encoding is three bytes more than its UTF-8 payload.
pub proof fn lemma_string_wire_len(chars: Seq<char>)
    ensures
        spec_string_wire(chars).len() == encode_utf8(chars).len() + 3,
{
    lemma_auto_spec_u16_to_from_le_bytes();
}

/// A parsed string occupies some prefix of its bytes.
pub proof fn lemma_read_string_len(bytes: Seq<u8>)
    ensures
        spec_read_string(bytes) matches Ok((v, n)) ==> 0 <= n <= bytes.len(),
{
}

impl OpenRGBWritable for String {
    open spec fn wire(self, protocol: u32) -> Seq<u8> {
        spec_string_wire(self@)
    }

    open spec fn wf(self, protocol: u32) -> bool {
        spec_string_wf(self@)
    }

    proof fn wire_len_bound(self, protocol: u32) {
        lemma_auto_spec_u16_to_from_le_bytes();
    }

    fn size(&self, protocol: u32) -> (n: usize) {
        proof {
            lemma_auto_spec_u16_to_from_le_bytes();
        }
        let payload = self.as_str().as_bytes();
        2 + payload.len() + 1
    }

    fn write<S: OpenRGBWritableSync>(self, stream: &mut S, protocol: u32) -> (r: Result<
        (),
        OpenRGBError,
    >) {
        let payload = self.as_str().as_bytes();
        let len = payload.len();
        if len > MAX_STRING_BYTES as usize {
            return Err(OpenRGBError::ProtocolError("string does not fit 16-bit length".to_owned()));
        }
        let short: u16 = (len + 1) as u16;
        short.write(stream, protocol)?;
        stream.write_all(payload);
        stream.write_u8(0);
        proof {
            lemma_auto_spec_u16_to_from_le_bytes();
            assert(stream.out() =~= old(stream).out() + self.wire(protocol));
        }
        Ok(())
    }
}

impl OpenRGBReadable for String {
    proof fn read_len_bound(bytes: Seq<u8>, protocol: u32) {
    }

    open spec fn spec_read(bytes: Seq<u8>, protocol: u32) -> Result<(Seq<char>, int), WireError> {
        spec_read_string(bytes)
    }

    fn read<S: OpenRGBReadableSync>(stream: &mut S, protocol: u32) -> (r: Result<
        String,
        OpenRGBError,
    >) {
        let n = u16::read(stream, protocol)?;
        let mut buf = stream.read_exact(n as usize)?;
        if buf.len() > 0 {
            buf.pop();
        }
        proof {
            let bytes = old(stream).rem();
            let nn = spec_u16_from_le_bytes(bytes.take(2)) as int;
            if nn == 0 {
                assert(buf@ =~= Seq::<u8>::empty());
            } else {
                assert(buf@ =~= bytes.subrange(2, 2 + nn - 1));
            }
        }
        match string_from_utf8(buf) {
            Some(s) => Ok(s),
            None => Err(OpenRGBError::CommunicationError()),
        }
    }
}

impl OpenRGBCodec for String {
    proof fn round_trip(self, tail: Seq<u8>, protocol: u32) {
        lemma_string_round_trip(self@, tail);
    }
}

} // verus!
