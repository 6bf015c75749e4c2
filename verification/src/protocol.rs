//! Byte streams: what the codec reads from and writes to.
//!
//! The codec is parameterized by the two small stream interfaces below,
//! which expose exact reads and exact writes over raw bytes.
//! [`ReadStream`] and [`WriteStream`] implement them over in-memory
//! buffers; the transport shuttles whole frames between such buffers and
//! the connection.
use vstd::prelude::*;

use crate::OpenRGBCodec;
use crate::OpenRGBError;
use crate::OpenRGBReadable;
use crate::OpenRGBWritable;
use crate::WireError;
use crate::err_matches;
use crate::packet::{PacketId, spec_packet_id_code, spec_packet_id_from};

verus! {

/// A source of bytes the codec can read values from.
///
/// `rem` is the sequence of bytes not yet consumed.
pub trait OpenRGBReadableSync: Sized {
    /// The bytes that remain to be read.
    spec fn rem(&self) -> Seq<u8>;

    /// Read one byte; fails exactly when none is left.
    fn read_u8(&mut self) -> (r: Result<u8, OpenRGBError>)
        ensures
            match r {
                Ok(b) => {
                    &&& old(self).rem().len() >= 1
                    &&& b == old(self).rem()[0]
                    &&& final(self).rem() == old(self).rem().skip(1)
                },
                Err(e) => {
                    &&& old(self).rem().len() == 0
                    &&& final(self).rem() == old(self).rem()
                    &&& e is CommunicationError
                },
            },
    ;

    /// How many bytes remain to be read.
    fn remaining(&self) -> (n: usize)
        ensures
            n == self.rem().len(),
    ;

    /// Read exactly `n` bytes; fails exactly when fewer are left, and
    /// then consumes nothing.
    fn read_exact(&mut self, n: usize) -> (r: Result<Vec<u8>, OpenRGBError>)
        ensures
            match r {
                Ok(buf) => {
                    &&& old(self).rem().len() >= n
                    &&& buf@ == old(self).rem().take(n as int)
                    &&& final(self).rem() == old(self).rem().skip(n as int)
                },
                Err(e) => {
                    &&& old(self).rem().len() < n
                    &&& final(self).rem() == old(self).rem()
                    &&& e is CommunicationError
                },
            },
    ;
}

/// Read one value of type `T` from the stream.
pub fn read_value<S: OpenRGBReadableSync, T: OpenRGBReadable>(
    stream: &mut S,
    protocol: u32,
) -> (r: Result<T, OpenRGBError>)
    ensures
        match T::spec_read(old(stream).rem(), protocol) {
            Ok((v, n)) => {
                &&& r matches Ok(w) && w.deep_view() == v
                &&& final(stream).rem() == old(stream).rem().skip(n)
            },
            Err(k) => r matches Err(e) && err_matches(e, k),
        },
{
    T::read(stream, protocol)
}

/// Write one value of type `T` to the stream.
pub fn write_value<S: OpenRGBWritableSync, T: crate::OpenRGBWritable>(
    stream: &mut S,
    value: T,
    protocol: u32,
) -> (r: Result<(), OpenRGBError>)
    ensures
        r is Ok <==> value.wf(protocol),
        r is Ok ==> final(stream).out() == old(stream).out() + value.wire(protocol),
        !(r is Ok) ==> final(stream).out() == old(stream).out(),
        r matches Err(e) ==> e is ProtocolError,
{
    value.write(stream, protocol)
}

/// A sink of bytes the codec can write values to.
///
/// `out` is the sequence of bytes written so far.
pub trait OpenRGBWritableSync: Sized {
    /// The bytes written so far.
    spec fn out(&self) -> Seq<u8>;

    /// Append one byte.
    fn write_u8(&mut self, b: u8)
        ensures
            final(self).out() == old(self).out().push(b),
    ;

    /// Append all the given bytes.
    fn write_all(&mut self, bytes: &[u8])
        ensures
            final(self).out() == old(self).out() + bytes@,
    ;
}

/// A byte connection that can be both read and written, as a
/// request/response exchange needs.
pub trait OpenRGBSync: OpenRGBReadableSync + OpenRGBWritableSync {
}

/// An in-memory byte source: a buffer and the position reached in it.
pub struct ReadStream {
    data: Vec<u8>,
    pos: usize,
}

/// The bytes an in-memory source has not yet handed out.
closed spec fn spec_stream_rem(s: ReadStream) -> Seq<u8> {
    s.data@.skip(s.pos as int)
}

/// The bytes an in-memory sink has taken so far.
closed spec fn spec_stream_out(s: WriteStream) -> Seq<u8> {
    s.data@
}

impl ReadStream {
    #[verifier::type_invariant]
    spec fn inv(self) -> bool {
        self.pos <= self.data.len()
    }

    /// A stream that will read the given bytes.
    pub fn new(data: Vec<u8>) -> (r: ReadStream)
        ensures
            r.rem() == data@,
    {
        ReadStream { data, pos: 0 }
    }

}

impl OpenRGBReadableSync for ReadStream {
    closed spec fn rem(&self) -> Seq<u8> {
        spec_stream_rem(*self)
    }

    fn remaining(&self) -> (n: usize) {
        proof {
            use_type_invariant(&*self);
        }
        self.data.len() - self.pos
    }

    fn read_u8(&mut self) -> (r: Result<u8, OpenRGBError>) {
        proof {
            use_type_invariant(&*self);
        }
        if self.pos < self.data.len() {
            let b = self.data[self.pos];
            self.pos = self.pos + 1;
            proof {
                assert(self.rem() =~= old(self).rem().skip(1));
            }
            Ok(b)
        } else {
            Err(OpenRGBError::CommunicationError())
        }
    }

    fn read_exact(&mut self, n: usize) -> (r: Result<Vec<u8>, OpenRGBError>) {
        proof {
            use_type_invariant(&*self);
        }
        if n <= self.data.len() - self.pos {
            let mut buf: Vec<u8> = Vec::new();
            let mut i: usize = 0;
            while i < n
                invariant
                    i <= n,
                    self.pos + n <= self.data.len(),
                    buf@ == self.data@.subrange(self.pos as int, self.pos + i),
                    *self == *old(self),
                decreases n - i,
            {
                buf.push(self.data[self.pos + i]);
                i = i + 1;
                proof {
                    assert(buf@ =~= self.data@.subrange(self.pos as int, self.pos + i));
                }
            }
            self.pos = self.pos + n;
            proof {
                assert(buf@ =~= old(self).rem().take(n as int));
                assert(self.rem() =~= old(self).rem().skip(n as int));
            }
            Ok(buf)
        } else {
            Err(OpenRGBError::CommunicationError())
        }
    }
}

/// An in-memory byte sink: a growable buffer.
pub struct WriteStream {
    data: Vec<u8>,
}

impl WriteStream {
    /// An empty sink.
    pub fn new() -> (r: WriteStream)
        ensures
            r.out() == Seq::<u8>::empty(),
    {
        WriteStream { data: Vec::new() }
    }

    /// How many bytes have been written.
    pub fn len(&self) -> (n: usize)
        ensures
            n == self.out().len(),
    {
        self.data.len()
    }

    /// The bytes written, as a slice.
    pub fn as_bytes(&self) -> (r: &[u8])
        ensures
            r@ == self.out(),
    {
        self.data.as_slice()
    }

    /// Hand the written bytes over.
    pub fn into_vec(self) -> (r: Vec<u8>)
        ensures
            r@ == self.out(),
    {
        self.data
    }
}

impl OpenRGBWritableSync for WriteStream {
    closed spec fn out(&self) -> Seq<u8> {
        spec_stream_out(*self)
    }

    fn write_u8(&mut self, b: u8) {
        self.data.push(b);
    }

    fn write_all(&mut self, bytes: &[u8]) {
        let mut i: usize = 0;
        while i < bytes.len()
            invariant
                i <= bytes@.len(),
                self.data@ == old(self).data@ + bytes@.take(i as int),
            decreases bytes@.len() - i,
        {
            self.data.push(bytes[i]);
            i = i + 1;
            proof {
                assert(self.data@ =~= old(self).data@ + bytes@.take(i as int));
            }
        }
        proof {
            assert(self.out() =~= old(self).out() + bytes@);
        }
    }
}


/// The four magic bytes that open every frame.
pub open spec fn spec_magic() -> Seq<u8> {
    seq![0x4fu8, 0x52u8, 0x47u8, 0x42u8]
}

/// A frame header: the magic marker, the device the frame concerns, the
/// operation it carries, and the byte length of the body that follows.
#[derive(Debug, Copy, Clone, PartialEq, Eq, Structural)]
pub struct Header {
    /// Device id.
    pub device_id: u32,
    /// Packet id.
    pub packet_id: PacketId,
    /// Byte length of the frame body, the header excluded.
    pub len: u32,
}

impl Default for Header {
    /// An all-zero header for the controller count request.
    fn default() -> (r: Self)
        ensures
            r == (Header { device_id: 0, packet_id: PacketId::RequestControllerCount, len: 0 }),
    {
        Header { device_id: 0, packet_id: PacketId::RequestControllerCount, len: 0 }
    }
}

impl DeepView for Header {
    type V = Header;

    open spec fn deep_view(&self) -> Header {
        *self
    }
}

impl OpenRGBWritable for Header {
    open spec fn wire(self, protocol: u32) -> Seq<u8> {
        spec_magic() + vstd::bytes::spec_u32_to_le_bytes(self.device_id)
            + vstd::bytes::spec_u32_to_le_bytes(spec_packet_id_code(self.packet_id))
            + vstd::bytes::spec_u32_to_le_bytes(self.len)
    }

    open spec fn wf(self, protocol: u32) -> bool {
        true
    }

    proof fn wire_len_bound(self, protocol: u32) {
        vstd::bytes::lemma_auto_spec_u32_to_from_le_bytes();
    }

    fn size(&self, protocol: u32) -> (n: usize) {
        proof {
            vstd::bytes::lemma_auto_spec_u32_to_from_le_bytes();
        }
        16
    }

    fn write<S: OpenRGBWritableSync>(self, stream: &mut S, protocol: u32) -> (r: Result<
        (),
        OpenRGBError,
    >) {
        let magic: [u8; 4] = [0x4f, 0x52, 0x47, 0x42];
        stream.write_all(magic.as_slice());
        let _ = self.device_id.write(stream, protocol);
        let _ = self.packet_id.write(stream, protocol);
        let _ = self.len.write(stream, protocol);
        proof {
            assert(magic@ =~= spec_magic());
            assert(stream.out() =~= old(stream).out() + self.wire(protocol));
        }
        Ok(())
    }
}

/// The mathematical parser for a frame header.  The magic bytes are
/// checked one by one: the first that differs fails the frame, naming
/// the offending byte, and nothing further is interpreted.
pub open spec fn spec_read_header(bytes: Seq<u8>, protocol: u32) -> Result<(Header, int), WireError> {
    if bytes.len() < 1 {
        Err(WireError::Truncated)
    } else if bytes[0] != 0x4f {
        Err(WireError::BadMagic(bytes[0]))
    } else if bytes.len() < 2 {
        Err(WireError::Truncated)
    } else if bytes[1] != 0x52 {
        Err(WireError::BadMagic(bytes[1]))
    } else if bytes.len() < 3 {
        Err(WireError::Truncated)
    } else if bytes[2] != 0x47 {
        Err(WireError::BadMagic(bytes[2]))
    } else if bytes.len() < 4 {
        Err(WireError::Truncated)
    } else if bytes[3] != 0x42 {
        Err(WireError::BadMagic(bytes[3]))
    } else {
        match u32::spec_read(bytes.skip(4), protocol) {
            Err(k) => Err(k),
            Ok((device_id, _c)) => match PacketId::spec_read(bytes.skip(8), protocol) {
                Err(k) => Err(k),
                Ok((packet_id, _c2)) => match u32::spec_read(bytes.skip(12), protocol) {
                    Err(k) => Err(k),
                    Ok((len, _c3)) => Ok((Header { device_id, packet_id, len }, 16)),
                },
            },
        }
    }
}

impl OpenRGBReadable for Header {
    proof fn read_len_bound(bytes: Seq<u8>, protocol: u32) {
    }

    open spec fn spec_read(bytes: Seq<u8>, protocol: u32) -> Result<(Header, int), WireError> {
        spec_read_header(bytes, protocol)
    }

    fn read<S: OpenRGBReadableSync>(stream: &mut S, protocol: u32) -> (r: Result<
        Header,
        OpenRGBError,
    >) {
        let ghost bytes = old(stream).rem();
        let b0 = stream.read_u8()?;
        if b0 != 0x4f {
            return Err(OpenRGBError::BadMagic(b0));
        }
        let b1 = stream.read_u8()?;
        if b1 != 0x52 {
            return Err(OpenRGBError::BadMagic(b1));
        }
        let b2 = stream.read_u8()?;
        if b2 != 0x47 {
            return Err(OpenRGBError::BadMagic(b2));
        }
        let b3 = stream.read_u8()?;
        if b3 != 0x42 {
            return Err(OpenRGBError::BadMagic(b3));
        }
        proof {
            assert(stream.rem() =~= bytes.skip(4));
        }
        let device_id = u32::read(stream, protocol)?;
        proof {
            assert(stream.rem() =~= bytes.skip(8));
        }
        let packet_id = PacketId::read(stream, protocol)?;
        proof {
            assert(stream.rem() =~= bytes.skip(12));
        }
        let len = u32::read(stream, protocol)?;
        proof {
            assert(stream.rem() =~= bytes.skip(16));
        }
        Ok(Header { device_id, packet_id, len })
    }
}

impl OpenRGBCodec for Header {
    proof fn round_trip(self, tail: Seq<u8>, protocol: u32) {
        vstd::bytes::lemma_auto_spec_u32_to_from_le_bytes();
        let w = self.wire(protocol);
        let b = w + tail;
        assert(b.skip(4) =~= vstd::bytes::spec_u32_to_le_bytes(self.device_id)
            + (vstd::bytes::spec_u32_to_le_bytes(spec_packet_id_code(self.packet_id))
            + (vstd::bytes::spec_u32_to_le_bytes(self.len) + tail)));
        let r1 = vstd::bytes::spec_u32_to_le_bytes(spec_packet_id_code(self.packet_id))
            + (vstd::bytes::spec_u32_to_le_bytes(self.len) + tail);
        assert(b.skip(8) =~= r1);
        assert(b.skip(12) =~= vstd::bytes::spec_u32_to_le_bytes(self.len) + tail);
        assert(b.skip(4).take(4) =~= vstd::bytes::spec_u32_to_le_bytes(self.device_id));
        assert(b.skip(8).take(4) =~= vstd::bytes::spec_u32_to_le_bytes(
            spec_packet_id_code(self.packet_id),
        ));
        assert(b.skip(12).take(4) =~= vstd::bytes::spec_u32_to_le_bytes(self.len));
        assert(b.skip(16) =~= tail);
        assert(b[0] == 0x4fu8 && b[1] == 0x52u8 && b[2] == 0x47u8 && b[3] == 0x42u8);
    }
}

/// A frame whose first magic byte is wrong fails at once, naming that
/// byte; nothing after it is interpreted.
pub proof fn lemma_bad_magic_fails_first(bytes: Seq<u8>, protocol: u32)
    ensures
        bytes.len() >= 1 && bytes[0] != 0x4f ==> spec_read_header(bytes, protocol) == Err::<
            (Header, int),
            WireError,
        >(WireError::BadMagic(bytes[0])),
{
}

/// The bytes of a whole frame: magic, device id, packet id, the body's
/// length, and the body.
pub open spec fn spec_frame(device_id: u32, packet_id: PacketId, body: Seq<u8>) -> Seq<u8> {
    spec_magic() + vstd::bytes::spec_u32_to_le_bytes(device_id)
        + vstd::bytes::spec_u32_to_le_bytes(spec_packet_id_code(packet_id))
        + vstd::bytes::spec_u32_to_le_bytes(body.len() as u32) + body
}

/// The mathematical parser for a header whose identifiers must match the
/// request that was sent: a differing device or packet id fails the
/// exchange, naming expected and actual.
pub open spec fn spec_read_header_expect(
    bytes: Seq<u8>,
    protocol: u32,
    expected_device_id: u32,
    expected_packet_id: PacketId,
) -> Result<(u32, int), WireError> {
    match spec_read_header(bytes, protocol) {
        Err(k) => Err(k),
        Ok((h, n)) => if h.device_id != expected_device_id {
            Err(WireError::WrongDevice(expected_device_id, h.device_id))
        } else if h.packet_id != expected_packet_id {
            Err(WireError::WrongPacket(
                spec_packet_id_code(expected_packet_id),
                spec_packet_id_code(h.packet_id),
            ))
        } else {
            Ok((h.len, n))
        },
    }
}

/// Read a frame header and require it to answer the request with the
/// given identifiers.  Returns the body length the header declares.
pub fn read_header<S: OpenRGBReadableSync>(
    stream: &mut S,
    protocol: u32,
    expected_device_id: u32,
    expected_packet_id: PacketId,
) -> (r: Result<usize, OpenRGBError>)
    ensures
        match spec_read_header_expect(
            old(stream).rem(),
            protocol,
            expected_device_id,
            expected_packet_id,
        ) {
            Ok((len, n)) => {
                &&& r matches Ok(l) && l == len
                &&& final(stream).rem() == old(stream).rem().skip(n)
            },
            Err(k) => r matches Err(e) && err_matches(e, k),
        },
{
    let h = Header::read(stream, protocol)?;
    if h.device_id != expected_device_id {
        return Err(OpenRGBError::DeviceIDMismatch {
            expected: expected_device_id,
            got: h.device_id,
        });
    }
    if h.packet_id != expected_packet_id {
        return Err(OpenRGBError::PacketIDMismatch {
            expected: expected_packet_id.to_u32(),
            got: h.packet_id.to_u32(),
        });
    }
    Ok(h.len as usize)
}

/// The mathematical parser for a whole response frame: the expected
/// header, then the body, whose parsed length must equal the length the
/// header declared.
pub open spec fn spec_read_packet<O: OpenRGBReadable>(
    bytes: Seq<u8>,
    protocol: u32,
    expected_device_id: u32,
    expected_packet_id: PacketId,
) -> Result<(O::V, int), WireError> {
    match spec_read_header_expect(bytes, protocol, expected_device_id, expected_packet_id) {
        Err(k) => Err(k),
        Ok((len, n)) => match O::spec_read(bytes.skip(n), protocol) {
            Err(k) => Err(k),
            Ok((v, c)) => if c != len {
                Err(WireError::WrongLength)
            } else {
                Ok((v, n + c))
            },
        },
    }
}

/// Read a whole response frame: the header, which must answer the
/// request with the given identifiers, then the body, which must have
/// exactly the length the header declared.
pub fn read_packet<S: OpenRGBReadableSync, O: OpenRGBReadable>(
    stream: &mut S,
    protocol: u32,
    expected_device_id: u32,
    expected_packet_id: PacketId,
) -> (r: Result<O, OpenRGBError>)
    ensures
        match spec_read_packet::<O>(
            old(stream).rem(),
            protocol,
            expected_device_id,
            expected_packet_id,
        ) {
            Ok((v, n)) => {
                &&& r matches Ok(w) && w.deep_view() == v
                &&& final(stream).rem() == old(stream).rem().skip(n)
            },
            Err(k) => r matches Err(e) && err_matches(e, k),
        },
{
    let ghost bytes = old(stream).rem();
    let len = read_header(stream, protocol, expected_device_id, expected_packet_id)?;
    let before = stream.remaining();
    let body = O::read(stream, protocol)?;
    let after = stream.remaining();
    proof {
        O::read_len_bound(bytes.skip(16), protocol);
        let c = O::spec_read(bytes.skip(16), protocol)->Ok_0.1;
        vstd::seq_lib::lemma_seq_skip_of_skip(bytes, 16, c);
        assert(stream.rem() =~= bytes.skip(16 + c));
    }
    if before - after != len {
        return Err(OpenRGBError::ProtocolError(
            "frame body does not have the declared length".to_owned(),
        ));
    }
    Ok(body)
}

/// Write a whole frame: the header, whose length field is the body's
/// exact byte count, then the body.  The frame is assembled in full
/// before anything reaches the stream, so a failing body leaves the
/// stream untouched.
pub fn write_packet<S: OpenRGBWritableSync, I: OpenRGBWritable>(
    stream: &mut S,
    protocol: u32,
    device_id: u32,
    packet_id: PacketId,
    data: I,
) -> (r: Result<(), OpenRGBError>)
    ensures
        r is Ok <==> data.wf(protocol),
        r is Ok ==> final(stream).out() == old(stream).out() + spec_frame(
            device_id,
            packet_id,
            data.wire(protocol),
        ),
        !(r is Ok) ==> final(stream).out() == old(stream).out(),
        r matches Err(e) ==> e is ProtocolError,
{
    proof {
        vstd::bytes::lemma_auto_spec_u32_to_from_le_bytes();
        if data.wf(protocol) {
            data.wire_len_bound(protocol);
        }
    }
    let ghost body = data.wire(protocol);
    let mut tmp = WriteStream::new();
    data.write(&mut tmp, protocol)?;
    let body_len = tmp.len();
    let header = Header {
        device_id,
        packet_id,
        len: body_len as u32,
    };
    let _ = header.write(stream, protocol);
    stream.write_all(tmp.as_bytes());
    proof {
        assert(stream.out() =~= old(stream).out() + spec_frame(device_id, packet_id, body));
    }
    Ok(())
}

/// An in-memory connection: a buffer of bytes that arrived and a buffer
/// of bytes to send.  The transport drains the output to the wire and
/// feeds received bytes into a fresh connection.
pub struct Connection {
    input: ReadStream,
    output: WriteStream,
}

impl Connection {
    /// A connection that will read the given received bytes and has sent
    /// nothing yet.
    pub fn new(received: Vec<u8>) -> (r: Connection)
        ensures
            r.rem() == received@,
            r.out() == Seq::<u8>::empty(),
    {
        Connection { input: ReadStream::new(received), output: WriteStream::new() }
    }

    /// Hand over the bytes written so far.
    pub fn into_sent(self) -> (r: Vec<u8>)
        ensures
            r@ == self.out(),
    {
        self.output.into_vec()
    }

    /// One request/response exchange: write the request frame, then read
    /// a response frame that must carry the same device and packet ids.
    pub fn request<I: OpenRGBWritable, O: OpenRGBReadable>(
        &mut self,
        protocol: u32,
        device_id: u32,
        packet_id: PacketId,
        data: I,
    ) -> (r: Result<O, OpenRGBError>)
        ensures
            r is Ok ==> data.wf(protocol),
            data.wf(protocol) ==> final(self).out() == old(self).out() + spec_frame(
                device_id,
                packet_id,
                data.wire(protocol),
            ),
            data.wf(protocol) ==> match spec_read_packet::<O>(
                old(self).rem(),
                protocol,
                device_id,
                packet_id,
            ) {
                Ok((v, n)) => {
                    &&& r matches Ok(w) && w.deep_view() == v
                    &&& final(self).rem() == old(self).rem().skip(n)
                },
                Err(k) => r matches Err(e) && err_matches(e, k),
            },
    {
        write_packet(&mut self.output, protocol, device_id, packet_id, data)?;
        read_packet::<ReadStream, O>(&mut self.input, protocol, device_id, packet_id)
    }
}

impl OpenRGBReadableSync for Connection {
    closed spec fn rem(&self) -> Seq<u8> {
        spec_stream_rem(self.input)
    }

    fn remaining(&self) -> (n: usize) {
        self.input.remaining()
    }

    fn read_u8(&mut self) -> (r: Result<u8, OpenRGBError>) {
        self.input.read_u8()
    }

    fn read_exact(&mut self, n: usize) -> (r: Result<Vec<u8>, OpenRGBError>) {
        self.input.read_exact(n)
    }
}

impl OpenRGBWritableSync for Connection {
    closed spec fn out(&self) -> Seq<u8> {
        spec_stream_out(self.output)
    }

    fn write_u8(&mut self, b: u8) {
        self.output.write_u8(b);
    }

    fn write_all(&mut self, bytes: &[u8]) {
        self.output.write_all(bytes);
    }
}

impl OpenRGBSync for Connection {
}

} // verus!
