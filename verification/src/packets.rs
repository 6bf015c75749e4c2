//! Request packets and the server-side dispatch step.
//!
//! The packet-id set is closed, so dispatch is a tagged union: each
//! served id has one body decoder and one response encoder, and a frame
//! whose id is outside the served set is rejected as an unsupported
//! operation rather than ending the process.
use vstd::prelude::*;
use vstd::bytes::spec_u32_to_le_bytes;

use crate::OpenRGBCodec;
use crate::OpenRGBError;
use crate::OpenRGBReadable;
use crate::OpenRGBWritable;
use crate::WireError;
use crate::err_matches;
use crate::controller::{
    Controller, ControllerView, spec_read_controller, spec_controller_wire, spec_controller_wf,
    lemma_read_controller_len,
};
use crate::packet::PacketId;
use crate::protocol::{
    Header, OpenRGBReadableSync, OpenRGBWritableSync, spec_frame, spec_read_header, write_packet,
};

verus! {

/// A value that can travel as a frame body, under one fixed packet id.
pub trait PacketBody: OpenRGBReadable + OpenRGBWritable {
    /// The packet id frames of this body travel under.
    spec fn spec_packet_id() -> PacketId;

    /// The packet id frames of this body travel under.
    fn packet_id() -> (r: PacketId)
        ensures
            r == Self::spec_packet_id(),
    ;
}

/// A body the server may answer with.
pub trait ResponsePacketBody: OpenRGBWritable {

}

/// A body the server accepts, with the response it produces for it.
pub trait RequestPacketBody: PacketBody {
    /// The body of the response to this request.
    type Response: ResponsePacketBody;

    /// Decide the response to this request.
    fn handle(self) -> (r: Result<Self::Response, OpenRGBError>);
}

/// Request for the number of controllers the server drives.  Its body is
/// empty.
#[derive(Debug, Copy, Clone, PartialEq, Eq, Structural)]
pub struct RequestControllerCount {
}

impl DeepView for RequestControllerCount {
    type V = RequestControllerCount;

    open spec fn deep_view(&self) -> RequestControllerCount {
        *self
    }
}

impl OpenRGBWritable for RequestControllerCount {
    open spec fn wire(self, protocol: u32) -> Seq<u8> {
        Seq::empty()
    }

    open spec fn wf(self, protocol: u32) -> bool {
        true
    }

    proof fn wire_len_bound(self, protocol: u32) {
    }

    fn size(&self, protocol: u32) -> (n: usize) {
        0
    }

    fn write<S: OpenRGBWritableSync>(self, stream: &mut S, protocol: u32) -> (r: Result<
        (),
        OpenRGBError,
    >) {
        proof {
            assert(old(stream).out() + self.wire(protocol) =~= old(stream).out());
        }
        Ok(())
    }
}

impl OpenRGBReadable for RequestControllerCount {
    proof fn read_len_bound(bytes: Seq<u8>, protocol: u32) {
    }

    open spec fn spec_read(bytes: Seq<u8>, protocol: u32) -> Result<
        (RequestControllerCount, int),
        WireError,
    > {
        Ok((RequestControllerCount {  }, 0))
    }

    fn read<S: OpenRGBReadableSync>(stream: &mut S, protocol: u32) -> (r: Result<
        RequestControllerCount,
        OpenRGBError,
    >) {
        proof {
            assert(old(stream).rem().skip(0) =~= old(stream).rem());
        }
        Ok(RequestControllerCount {  })
    }
}

impl OpenRGBCodec for RequestControllerCount {
    proof fn round_trip(self, tail: Seq<u8>, protocol: u32) {
        assert(self.wire(protocol) + tail =~= tail);
    }
}

impl PacketBody for RequestControllerCount {
    open spec fn spec_packet_id() -> PacketId {
        PacketId::RequestControllerCount
    }

    fn packet_id() -> (r: PacketId) {
        PacketId::RequestControllerCount
    }
}

impl RequestPacketBody for RequestControllerCount {
    type Response = RequestControllerCountResponse;

    /// The server of this crate drives no controllers itself, so the
    /// count is zero; a server embedding real devices answers through
    /// its own state.
    fn handle(self) -> (r: Result<RequestControllerCountResponse, OpenRGBError>)
        ensures
            r matches Ok(resp) && resp.count == 0,
    {
        Ok(RequestControllerCountResponse { count: 0 })
    }
}

/// Response to the controller count request: the number of controllers.
#[derive(Debug, Copy, Clone, PartialEq, Eq, Structural)]
pub struct RequestControllerCountResponse {
    /// Number of controllers the server drives.
    pub count: u32,
}

impl DeepView for RequestControllerCountResponse {
    type V = RequestControllerCountResponse;

    open spec fn deep_view(&self) -> RequestControllerCountResponse {
        *self
    }
}

impl OpenRGBWritable for RequestControllerCountResponse {
    open spec fn wire(self, protocol: u32) -> Seq<u8> {
        spec_u32_to_le_bytes(self.count)
    }

    open spec fn wf(self, protocol: u32) -> bool {
        true
    }

    proof fn wire_len_bound(self, protocol: u32) {
        vstd::bytes::lemma_auto_spec_u32_to_from_le_bytes();
    }

    fn size(&self, protocol: u32) -> (n: usize) {
        proof {
            vstd::bytes::lemma_auto_spec_u32_to_from_le_bytes();
        }
        4
    }

    fn write<S: OpenRGBWritableSync>(self, stream: &mut S, protocol: u32) -> (r: Result<
        (),
        OpenRGBError,
    >) {
        self.count.write(stream, protocol)
    }
}

impl OpenRGBReadable for RequestControllerCountResponse {
    proof fn read_len_bound(bytes: Seq<u8>, protocol: u32) {
    }

    open spec fn spec_read(bytes: Seq<u8>, protocol: u32) -> Result<
        (RequestControllerCountResponse, int),
        WireError,
    > {
        match u32::spec_read(bytes, protocol) {
            Err(k) => Err(k),
            Ok((count, c)) => Ok((RequestControllerCountResponse { count }, c)),
        }
    }

    fn read<S: OpenRGBReadableSync>(stream: &mut S, protocol: u32) -> (r: Result<
        RequestControllerCountResponse,
        OpenRGBError,
    >) {
        let count = u32::read(stream, protocol)?;
        Ok(RequestControllerCountResponse { count })
    }
}

impl OpenRGBCodec for RequestControllerCountResponse {
    proof fn round_trip(self, tail: Seq<u8>, protocol: u32) {
        self.count.round_trip(tail, protocol);
    }
}

impl ResponsePacketBody for RequestControllerCountResponse {

}

/// Request carrying a controller data block.  The server answers it by
/// sending the same block back.
#[derive(Debug, PartialEq, Eq)]
pub struct RequestControllerData {
    /// The controller the frame carries.
    pub controller: Controller,
}

impl DeepView for RequestControllerData {
    type V = ControllerView;

    open spec fn deep_view(&self) -> ControllerView {
        self.controller.deep_view()
    }
}

impl OpenRGBWritable for RequestControllerData {
    open spec fn wire(self, protocol: u32) -> Seq<u8> {
        spec_controller_wire(self.controller, protocol)
    }

    open spec fn wf(self, protocol: u32) -> bool {
        spec_controller_wf(self.controller, protocol)
    }

    proof fn wire_len_bound(self, protocol: u32) {
        self.controller.wire_len_bound(protocol);
    }

    fn size(&self, protocol: u32) -> (n: usize) {
        self.controller.size(protocol)
    }

    fn write<S: OpenRGBWritableSync>(self, stream: &mut S, protocol: u32) -> (r: Result<
        (),
        OpenRGBError,
    >) {
        self.controller.write(stream, protocol)
    }
}

impl OpenRGBReadable for RequestControllerData {
    proof fn read_len_bound(bytes: Seq<u8>, protocol: u32) {
        lemma_read_controller_len(bytes, protocol);
    }

    open spec fn spec_read(bytes: Seq<u8>, protocol: u32) -> Result<
        (ControllerView, int),
        WireError,
    > {
        spec_read_controller(bytes, protocol)
    }

    fn read<S: OpenRGBReadableSync>(stream: &mut S, protocol: u32) -> (r: Result<
        RequestControllerData,
        OpenRGBError,
    >) {
        let controller = Controller::read(stream, protocol)?;
        Ok(RequestControllerData { controller })
    }
}

impl OpenRGBCodec for RequestControllerData {
    proof fn round_trip(self, tail: Seq<u8>, protocol: u32) {
        self.controller.round_trip(tail, protocol);
    }
}

impl PacketBody for RequestControllerData {
    open spec fn spec_packet_id() -> PacketId {
        PacketId::RequestControllerData
    }

    fn packet_id() -> (r: PacketId) {
        PacketId::RequestControllerData
    }
}

impl RequestPacketBody for RequestControllerData {
    type Response = RequestControllerData;

    /// Echo the controller data back.
    fn handle(self) -> (r: Result<RequestControllerData, OpenRGBError>)
        ensures
            r matches Ok(resp) && resp == self,
    {
        Ok(self)
    }
}

impl ResponsePacketBody for RequestControllerData {

}

/// A frame paired with its decoded body, when one has been read.
pub struct Packet<T: PacketBody> {
    /// The frame's header.
    pub header: Header,
    /// The frame's body, present once read.
    pub body: Option<T>,
}

impl<T: PacketBody> Packet<T> {
    /// An empty packet: a default header and no body yet.
    pub fn new() -> (r: Packet<T>)
        ensures
            r.header == (Header {
                device_id: 0,
                packet_id: PacketId::RequestControllerCount,
                len: 0,
            }),
            r.body is None,
    {
        Packet { header: Header::default(), body: None }
    }

    /// Keep the given header and read the body from the stream.
    pub fn read<S: OpenRGBReadableSync>(
        &mut self,
        header: Header,
        stream: &mut S,
        protocol: u32,
    ) -> (r: Result<(), OpenRGBError>)
        ensures
            match T::spec_read(old(stream).rem(), protocol) {
                Ok((v, n)) => {
                    &&& r is Ok
                    &&& final(self).header == header
                    &&& final(self).body matches Some(b) && b.deep_view() == v
                    &&& final(stream).rem() == old(stream).rem().skip(n)
                },
                Err(k) => r matches Err(e) && err_matches(e, k),
            },
    {
        let body = T::read(stream, protocol)?;
        self.header = header;
        self.body = Some(body);
        Ok(())
    }

    /// Length in bytes of the body's encoding; an unread packet has none.
    pub fn size(&self, protocol: u32) -> (n: usize)
        requires
            self.body matches Some(b) ==> b.wf(protocol),
        ensures
            n == match self.body {
                Option::Some(b) => b.wire(protocol).len() as int,
                Option::None => 0,
            },
    {
        match &self.body {
            Option::Some(b) => b.size(protocol),
            Option::None => 0,
        }
    }

    /// Append the body's encoding; a packet with no body cannot be
    /// written.
    pub fn write<S: OpenRGBWritableSync>(self, stream: &mut S, protocol: u32) -> (r: Result<
        (),
        OpenRGBError,
    >)
        ensures
            match self.body {
                Option::Some(b) => {
                    &&& r is Ok <==> b.wf(protocol)
                    &&& r is Ok ==> final(stream).out() == old(stream).out() + b.wire(protocol)
                },
                Option::None => r is Err,
            },
            !(r is Ok) ==> final(stream).out() == old(stream).out(),
            r matches Err(e) ==> e is ProtocolError,
    {
        match self.body {
            Option::Some(b) => b.write(stream, protocol),
            Option::None => Err(OpenRGBError::ProtocolError(
                "attempted to write before setting body".to_owned(),
            )),
        }
    }
}

/// A request frame paired with its decoded body: a [`Packet`] the server
/// can answer.
pub struct RequestPacket<T: RequestPacketBody> {
    /// The frame's header.
    pub header: Header,
    /// The frame's body, present once read.
    pub body: Option<T>,
}

impl<T: RequestPacketBody> RequestPacket<T> {
    /// An empty request packet: a default header and no body yet.
    pub fn new() -> (r: RequestPacket<T>)
        ensures
            r.header == (Header {
                device_id: 0,
                packet_id: PacketId::RequestControllerCount,
                len: 0,
            }),
            r.body is None,
    {
        RequestPacket { header: Header::default(), body: None }
    }

    /// Keep the given header and read the body from the stream.
    pub fn read<S: OpenRGBReadableSync>(
        &mut self,
        header: Header,
        stream: &mut S,
        protocol: u32,
    ) -> (r: Result<(), OpenRGBError>)
        ensures
            match T::spec_read(old(stream).rem(), protocol) {
                Ok((v, n)) => {
                    &&& r is Ok
                    &&& final(self).header == header
                    &&& final(self).body matches Some(b) && b.deep_view() == v
                    &&& final(stream).rem() == old(stream).rem().skip(n)
                },
                Err(k) => r matches Err(e) && err_matches(e, k),
            },
    {
        let body = T::read(stream, protocol)?;
        self.header = header;
        self.body = Some(body);
        Ok(())
    }

    /// Length in bytes of the body's encoding; an unread packet has none.
    pub fn size(&self, protocol: u32) -> (n: usize)
        requires
            self.body matches Some(b) ==> b.wf(protocol),
        ensures
            n == match self.body {
                Option::Some(b) => b.wire(protocol).len() as int,
                Option::None => 0,
            },
    {
        match &self.body {
            Option::Some(b) => b.size(protocol),
            Option::None => 0,
        }
    }

    /// Append the body's encoding; a packet with no body cannot be
    /// written.
    pub fn write<S: OpenRGBWritableSync>(self, stream: &mut S, protocol: u32) -> (r: Result<
        (),
        OpenRGBError,
    >)
        ensures
            match self.body {
                Option::Some(b) => {
                    &&& r is Ok <==> b.wf(protocol)
                    &&& r is Ok ==> final(stream).out() == old(stream).out() + b.wire(protocol)
                },
                Option::None => r is Err,
            },
            !(r is Ok) ==> final(stream).out() == old(stream).out(),
            r matches Err(e) ==> e is ProtocolError,
    {
        match self.body {
            Option::Some(b) => b.write(stream, protocol),
            Option::None => Err(OpenRGBError::ProtocolError(
                "attempted to write before setting body".to_owned(),
            )),
        }
    }

    /// Decide the response to this request and write it as a frame with
    /// the request's own device and packet ids.
    pub fn handle<S: OpenRGBWritableSync>(self, stream: &mut S, protocol: u32) -> (r: Result<
        (),
        OpenRGBError,
    >)
        ensures
            r is Ok ==> exists|body: Seq<u8>|
                final(stream).out() == old(stream).out() + spec_frame(
                    self.header.device_id,
                    self.header.packet_id,
                    body,
                ),
            !(r is Ok) ==> final(stream).out() == old(stream).out(),
            self.body is None ==> r is Err,
    {
        let header = self.header;
        let body = match self.body {
            Option::Some(b) => b,
            Option::None => {
                return Err(OpenRGBError::ProtocolError(
                    "attempted to handle before setting body".to_owned(),
                ));
            },
        };
        let resp = body.handle()?;
        let ghost resp_wire = resp.wire(protocol);
        write_packet(stream, protocol, header.device_id, header.packet_id, resp)?;
        proof {
            assert(final(stream).out() == old(stream).out() + spec_frame(
                header.device_id,
                header.packet_id,
                resp_wire,
            ));
        }
        Ok(())
    }
}

/// One decoded request frame, keyed by its packet id.
pub enum Requests {
    /// A controller count request.
    RequestControllerCount(RequestPacket<RequestControllerCount>),
    /// A controller data block.
    RequestControllerData(RequestPacket<RequestControllerData>),
}

/// Read one request frame: the header, then the body decoder the
/// header's packet id selects.  A known id this server does not serve is
/// rejected as an unsupported operation.
pub fn read_any<S: OpenRGBReadableSync>(stream: &mut S, protocol: u32) -> (r: Result<
    Requests,
    OpenRGBError,
>)
    ensures
        match spec_read_header(old(stream).rem(), protocol) {
            Err(k) => r matches Err(e) && err_matches(e, k),
            Ok((h, hn)) => {
                if h.packet_id == PacketId::RequestControllerCount {
                    &&& r matches Ok(Requests::RequestControllerCount(p))
                    &&& p.header == h
                    &&& p.body is Some
                    &&& final(stream).rem() == old(stream).rem().skip(hn)
                } else if h.packet_id == PacketId::RequestControllerData {
                    match RequestControllerData::spec_read(
                        old(stream).rem().skip(hn),
                        protocol,
                    ) {
                        Ok((v, n)) => {
                            &&& r matches Ok(Requests::RequestControllerData(p))
                            &&& p.header == h
                            &&& p.body matches Some(b) && b.deep_view() == v
                            &&& final(stream).rem() == old(stream).rem().skip(hn + n)
                        },
                        Err(k) => r matches Err(e) && err_matches(e, k),
                    }
                } else {
                    r matches Err(e) && e is UnsupportedOperation
                }
            },
        },
{
    let ghost bytes = old(stream).rem();
    let header = Header::read(stream, protocol)?;
    if header.packet_id == PacketId::RequestControllerCount {
        let mut p = RequestPacket::<RequestControllerCount>::new();
        p.read(header, stream, protocol)?;
        proof {
            assert(stream.rem() =~= bytes.skip(16));
        }
        Ok(Requests::RequestControllerCount(p))
    } else if header.packet_id == PacketId::RequestControllerData {
        let mut p = RequestPacket::<RequestControllerData>::new();
        p.read(header, stream, protocol)?;
        proof {
            lemma_read_controller_len(bytes.skip(16), protocol);
            if spec_read_controller(bytes.skip(16), protocol) is Ok {
                let n = spec_read_controller(bytes.skip(16), protocol)->Ok_0.1;
                vstd::seq_lib::lemma_seq_skip_of_skip(bytes, 16, n);
            }
        }
        Ok(Requests::RequestControllerData(p))
    } else {
        Err(OpenRGBError::UnsupportedOperation {
            current_protocol_version: protocol,
            min_protocol_version: protocol,
        })
    }
}

/// One server dispatch step: read a request frame from the input,
/// decide its response, and write the response frame, with the request's
/// own device and packet ids, to the output.
///
/// A controller count request is always answered, with a count of zero.
/// A controller data frame is echoed back whenever the carried
/// controller can be re-encoded.  Every failure of the frame or its body
/// is the one the parsers name, and then nothing is written.
pub fn handle<R: OpenRGBReadableSync, W: OpenRGBWritableSync>(
    input: &mut R,
    output: &mut W,
    protocol: u32,
) -> (r: Result<(), OpenRGBError>)
    ensures
        match spec_read_header(old(input).rem(), protocol) {
            Err(k) => {
                &&& r matches Err(e) && err_matches(e, k)
                &&& final(output).out() == old(output).out()
            },
            Ok((h, hn)) => {
                if h.packet_id == PacketId::RequestControllerCount {
                    &&& r is Ok
                    &&& final(input).rem() == old(input).rem().skip(hn)
                    &&& final(output).out() == old(output).out() + spec_frame(
                        h.device_id,
                        h.packet_id,
                        spec_u32_to_le_bytes(0),
                    )
                } else if h.packet_id == PacketId::RequestControllerData {
                    match spec_read_controller(old(input).rem().skip(hn), protocol) {
                        Err(k) => {
                            &&& r matches Err(e) && err_matches(e, k)
                            &&& final(output).out() == old(output).out()
                        },
                        Ok((cv, n)) => {
                            &&& final(input).rem() == old(input).rem().skip(hn + n)
                            &&& exists|b: Controller|
                                {
                                    &&& (#[trigger] b.deep_view()) == cv
                                    &&& r is Ok <==> spec_controller_wf(b, protocol)
                                    &&& r is Ok ==> final(output).out() == old(output).out()
                                        + spec_frame(
                                        h.device_id,
                                        h.packet_id,
                                        spec_controller_wire(b, protocol),
                                    )
                                    &&& !(r is Ok) ==> final(output).out() == old(output).out()
                                }
                        },
                    }
                } else {
                    &&& r matches Err(e) && e is UnsupportedOperation
                    &&& final(output).out() == old(output).out()
                }
            },
        },
{
    let ghost bytes = old(input).rem();
    let p = read_any(input, protocol)?;
    match p {
        Requests::RequestControllerCount(p) => {
            let header = p.header;
            let body = match p.body {
                Option::Some(b) => b,
                Option::None => {
                    return Err(OpenRGBError::ProtocolError("request has no body".to_owned()));
                },
            };
            let resp = body.handle()?;
            write_packet(output, protocol, header.device_id, header.packet_id, resp)
        },
        Requests::RequestControllerData(p) => {
            let header = p.header;
            let body = match p.body {
                Option::Some(b) => b,
                Option::None => {
                    return Err(OpenRGBError::ProtocolError("request has no body".to_owned()));
                },
            };
            let ghost witness = body.controller;
            let resp = body.handle()?;
            let outcome = write_packet(output, protocol, header.device_id, header.packet_id, resp);
            proof {
                let (cv, n) = spec_read_controller(bytes.skip(16), protocol)->Ok_0;
                assert(witness.deep_view() == cv);
                assert(outcome is Ok <==> spec_controller_wf(witness, protocol));
            }
            outcome
        },
    }
}

} // verus!
