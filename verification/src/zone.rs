//! Zones of a controller, with their optional LED matrix.
//!
//! A zone's matrix is sentinel-gated: a zero 16-bit element count on the
//! wire means "no matrix", and no further matrix bytes follow.  A present
//! matrix carries its element count, its height and width, and exactly
//! height times width 32-bit values in row-major order.
use vstd::prelude::*;
use vstd::bytes::{
    spec_u16_to_le_bytes, spec_u32_to_le_bytes, spec_u32_from_le_bytes,
    lemma_auto_spec_u16_to_from_le_bytes, lemma_auto_spec_u32_to_from_le_bytes,
};
use smallvec::SmallVec;

use crate::OpenRGBCodec;
use crate::OpenRGBError;
use crate::OpenRGBReadable;
use crate::OpenRGBWritable;
use crate::WireError;
use crate::protocol::{OpenRGBReadableSync, OpenRGBWritableSync};
use crate::string::{
    spec_string_wire, spec_string_wf, spec_read_string, lemma_string_round_trip,
    lemma_read_string_len, lemma_string_wire_len,
};
use crate::vec::{
    spec_wire_seq, spec_seq_wf, spec_read_seq, spec_deep_seq, lemma_read_seq_len,
    lemma_read_seq_round_trip, write_elements, read_elements,
};
use crate::zone_type::ZoneType;

verus! {

/// Holder of a matrix's value buffer: a small-vector that keeps up to
/// 2048 values inline and spills to the heap past that.  Verus sees the
/// buffer only through [`matrix_data_view`] and the functions below.
#[verifier::external_body]
#[derive(Debug, PartialEq, Eq)]
pub struct MatrixData {
    items: SmallVec<[u32; 2048]>,
}

/// The 32-bit values a matrix buffer holds, in order.
pub uninterp spec fn matrix_data_view(v: MatrixData) -> Seq<u32>;

/// Relies on `smallvec::SmallVec::new`: it makes an empty vector.
#[verifier::external_body]
fn matrix_data_new() -> (r: MatrixData)
    ensures
        matrix_data_view(r) == Seq::<u32>::empty(),
{
    MatrixData { items: SmallVec::new() }
}

/// Relies on `smallvec::SmallVec::push`: it appends the value.
#[verifier::external_body]
fn matrix_data_push(v: &mut MatrixData, x: u32)
    requires
        matrix_data_view(*old(v)).len() < 0xffff,
    ensures
        matrix_data_view(*final(v)) == matrix_data_view(*old(v)).push(x),
{
    v.items.push(x);
}

/// Relies on `smallvec::SmallVec::len`: it returns the element count.
#[verifier::external_body]
fn matrix_data_len(v: &MatrixData) -> (n: usize)
    ensures
        n == matrix_data_view(*v).len(),
{
    v.items.len()
}

/// Relies on `smallvec::SmallVec`'s slice indexing: it returns the
/// element at the given position.
#[verifier::external_body]
fn matrix_data_get(v: &MatrixData, i: usize) -> (x: u32)
    requires
        i < matrix_data_view(*v).len(),
    ensures
        x == matrix_data_view(*v)[i as int],
{
    v.items[i]
}


/// Mathematical model of a [`Matrix`].
pub struct MatrixView {
    /// Number of rows.
    pub height: u32,
    /// Number of columns.
    pub width: u32,
    /// The values, row-major.
    pub data: Seq<u32>,
}

/// A zone's LED matrix: height, width, and exactly height times width
/// values in row-major order, between one and 65535 of them.
#[derive(Debug, PartialEq, Eq)]
pub struct Matrix {
    len: u16,
    height: u32,
    width: u32,
    data: MatrixData,
}

/// Whether a matrix model is one a [`Matrix`] value can hold: the value
/// count is exactly height times width, and fits the 16-bit count field
/// while staying nonzero, so that the sentinel stays distinguishable.
pub open spec fn spec_matrix_wf(m: MatrixView) -> bool {
    &&& m.data.len() == m.height * m.width
    &&& 1 <= m.data.len() <= 0xffff
}

impl DeepView for Matrix {
    type V = MatrixView;

    closed spec fn deep_view(&self) -> MatrixView {
        MatrixView { height: self.height, width: self.width, data: matrix_data_view(self.data) }
    }
}

impl Matrix {
    #[verifier::type_invariant]
    spec fn inv(self) -> bool {
        &&& spec_matrix_wf(self.deep_view())
        &&& self.len == matrix_data_view(self.data).len()
    }

    /// Build a matrix from its dimensions and row-major values.  Succeeds
    /// exactly when the value count is height times width, nonzero, and
    /// within the 16-bit range.
    pub fn new(height: u32, width: u32, data: Vec<u32>) -> (r: Option<Matrix>)
        ensures
            r is Some <==> spec_matrix_wf(
                MatrixView { height, width, data: data@ },
            ),
            r matches Some(m) ==> m.deep_view() == (MatrixView { height, width, data: data@ }),
    {
        let h64 = height as u64;
        let w64 = width as u64;
        proof {
            assert(h64 * w64 <= 0xffff_ffffu64 * 0xffff_ffffu64) by (nonlinear_arith)
                requires
                    h64 <= 0xffff_ffffu64,
                    w64 <= 0xffff_ffffu64,
            ;
        }
        let prod = h64 * w64;
        if prod == 0 || prod > 0xffff || data.len() != prod as usize {
            return None;
        }
        let mut buf = matrix_data_new();
        let mut i: usize = 0;
        while i < data.len()
            invariant
                i <= data@.len(),
                data@.len() <= 0xffff,
                matrix_data_view(buf) == data@.take(i as int),
            decreases data@.len() - i,
        {
            matrix_data_push(&mut buf, data[i]);
            i = i + 1;
            proof {
                assert(matrix_data_view(buf) =~= data@.take(i as int));
            }
        }
        proof {
            assert(data@.take(data@.len() as int) =~= data@);
        }
        Some(Matrix { len: data.len() as u16, height, width, data: buf })
    }

    /// Number of rows.
    pub fn height(&self) -> (r: u32)
        ensures
            r == self.deep_view().height,
    {
        self.height
    }

    /// Number of columns.
    pub fn width(&self) -> (r: u32)
        ensures
            r == self.deep_view().width,
    {
        self.width
    }

    /// The values, row-major, as a plain vector.
    pub fn values(&self) -> (r: Vec<u32>)
        ensures
            r@ == self.deep_view().data,
    {
        proof {
            use_type_invariant(&*self);
        }
        let n = matrix_data_len(&self.data);
        let mut out: Vec<u32> = Vec::new();
        let mut i: usize = 0;
        while i < n
            invariant
                i <= n,
                n == matrix_data_view(self.data).len(),
                out@ == matrix_data_view(self.data).take(i as int),
            decreases n - i,
        {
            out.push(matrix_data_get(&self.data, i));
            i = i + 1;
            proof {
                assert(out@ =~= matrix_data_view(self.data).take(i as int));
            }
        }
        proof {
            assert(matrix_data_view(self.data).take(n as int) =~= matrix_data_view(self.data));
        }
        out
    }
}

/// The bytes a present matrix travels as.
pub open spec fn spec_matrix_wire(m: MatrixView, protocol: u32) -> Seq<u8> {
    spec_u16_to_le_bytes(m.data.len() as u16) + spec_u32_to_le_bytes(m.height)
        + spec_u32_to_le_bytes(m.width) + spec_wire_seq(m.data, protocol)
}

/// The encoding of a run of 32-bit values is four bytes per value.
pub proof fn lemma_wire_seq_u32_len(s: Seq<u32>, protocol: u32)
    ensures
        spec_wire_seq(s, protocol).len() == 4 * s.len(),
    decreases s.len(),
{
    lemma_auto_spec_u32_to_from_le_bytes();
    if s.len() > 0 {
        lemma_wire_seq_u32_len(s.drop_first(), protocol);
    }
}

/// Mathematical model of a [`Zone`].
pub struct ZoneView {
    /// The name's characters.
    pub name: Seq<char>,
    /// Kind of LED layout.
    pub zone_type: ZoneType,
    /// Fewest LEDs the zone can hold.
    pub leds_min: u32,
    /// Most LEDs the zone can hold.
    pub leds_max: u32,
    /// LEDs the zone holds now.
    pub leds_count: u32,
    /// The LED matrix, if one is present.
    pub matrix: Option<MatrixView>,
}

/// RGB controller zone.
#[derive(Debug, PartialEq, Eq)]
pub struct Zone {
    /// Zone name.
    pub name: String,
    /// Zone type.
    pub zone_type: ZoneType,
    /// Zone minimum LED number.
    pub leds_min: u32,
    /// Zone maximum LED number.
    pub leds_max: u32,
    /// Zone LED count.
    pub leds_count: u32,
    /// Zone LED matrix, present only for matrix zones.
    pub matrix: Option<Matrix>,
}

impl DeepView for Zone {
    type V = ZoneView;

    open spec fn deep_view(&self) -> ZoneView {
        ZoneView {
            name: self.name.deep_view(),
            zone_type: self.zone_type,
            leds_min: self.leds_min,
            leds_max: self.leds_max,
            leds_count: self.leds_count,
            matrix: self.matrix.deep_view(),
        }
    }
}

/// The mathematical parser for a zone.
pub open spec fn spec_read_zone(bytes: Seq<u8>, protocol: u32) -> Result<(ZoneView, int), WireError> {
    match spec_read_string(bytes) {
        Err(k) => Err(k),
        Ok((name, c1)) => match ZoneType::spec_read(bytes.skip(c1), protocol) {
            Err(k) => Err(k),
            Ok((zone_type, c2)) => match u32::spec_read(bytes.skip(c1 + c2), protocol) {
                Err(k) => Err(k),
                Ok((leds_min, c3)) => match u32::spec_read(bytes.skip(c1 + c2 + c3), protocol) {
                    Err(k) => Err(k),
                    Ok((leds_max, c4)) => match u32::spec_read(
                        bytes.skip(c1 + c2 + c3 + c4),
                        protocol,
                    ) {
                        Err(k) => Err(k),
                        Ok((leds_count, c5)) => {
                            let o = c1 + c2 + c3 + c4 + c5;
                            match u16::spec_read(bytes.skip(o), protocol) {
                                Err(k) => Err(k),
                                Ok((mlen, c6)) => if mlen == 0 {
                                    Ok((
                                        ZoneView {
                                            name,
                                            zone_type,
                                            leds_min,
                                            leds_max,
                                            leds_count,
                                            matrix: None,
                                        },
                                        o + c6,
                                    ))
                                } else {
                                    spec_read_zone_matrix(
                                        bytes.skip(o + c6),
                                        protocol,
                                        name,
                                        zone_type,
                                        leds_min,
                                        leds_max,
                                        leds_count,
                                        o + c6,
                                    )
                                },
                            }
                        },
                    },
                },
            },
        },
    }
}

/// The matrix part of the zone parser, after a nonzero element count.
pub open spec fn spec_read_zone_matrix(
    bytes: Seq<u8>,
    protocol: u32,
    name: Seq<char>,
    zone_type: ZoneType,
    leds_min: u32,
    leds_max: u32,
    leds_count: u32,
    offset: int,
) -> Result<(ZoneView, int), WireError> {
    match u32::spec_read(bytes, protocol) {
        Err(k) => Err(k),
        Ok((height, c7)) => match u32::spec_read(bytes.skip(c7), protocol) {
            Err(k) => Err(k),
            Ok((width, c8)) => if height * width == 0 || height * width > 0xffff {
                Err(WireError::BadValue)
            } else {
                match spec_read_seq::<u32>(
                    bytes.skip(c7 + c8),
                    protocol,
                    (height * width) as nat,
                ) {
                    Err(k) => Err(k),
                    Ok((data, c9)) => Ok((
                        ZoneView {
                            name,
                            zone_type,
                            leds_min,
                            leds_max,
                            leds_count,
                            matrix: Some(MatrixView { height, width, data }),
                        },
                        offset + c7 + c8 + c9,
                    )),
                }
            },
        },
    }
}

/// The bytes a zone encodes to.
pub open spec fn spec_zone_wire(z: Zone, protocol: u32) -> Seq<u8> {
    spec_string_wire(z.name@) + spec_u32_to_le_bytes(
        crate::zone_type::spec_zone_type_code(z.zone_type),
    ) + spec_u32_to_le_bytes(z.leds_min) + spec_u32_to_le_bytes(z.leds_max) + spec_u32_to_le_bytes(
        z.leds_count,
    ) + match z.matrix {
        Option::None => spec_u16_to_le_bytes(0),
        Option::Some(m) => spec_matrix_wire(m.deep_view(), protocol),
    }
}

/// Whether a zone can be encoded.
pub open spec fn spec_zone_wf(z: Zone, protocol: u32) -> bool {
    &&& spec_string_wf(z.name@)
    &&& match z.deep_view().matrix {
        Option::None => true,
        Option::Some(m) => spec_matrix_wf(m),
    }
}

impl OpenRGBWritable for Zone {
    open spec fn wire(self, protocol: u32) -> Seq<u8> {
        spec_zone_wire(self, protocol)
    }

    open spec fn wf(self, protocol: u32) -> bool {
        spec_zone_wf(self, protocol)
    }

    proof fn wire_len_bound(self, protocol: u32) {
        lemma_zone_wire_len(self, protocol);
    }

    fn size(&self, protocol: u32) -> (n: usize) {
        proof {
            lemma_zone_wire_len(*self, protocol);
            lemma_auto_spec_u16_to_from_le_bytes();
            lemma_auto_spec_u32_to_from_le_bytes();
        }
        let name_size = self.name.size(protocol);
        let matrix_size: usize = match &self.matrix {
            Option::None => 2,
            Option::Some(m) => {
                proof {
                    use_type_invariant(&*m);
                    lemma_wire_seq_u32_len(m.deep_view().data, protocol);
                }
                let len = matrix_data_len(&m.data);
                2 + 4 + 4 + 4 * len
            },
        };
        name_size + 4 + 4 + 4 + 4 + matrix_size
    }

    fn write<S: OpenRGBWritableSync>(self, stream: &mut S, protocol: u32) -> (r: Result<
        (),
        OpenRGBError,
    >) {
        self.name.write(stream, protocol)?;
        self.zone_type.write(stream, protocol)?;
        self.leds_min.write(stream, protocol)?;
        self.leds_max.write(stream, protocol)?;
        self.leds_count.write(stream, protocol)?;
        match self.matrix {
            Option::None => {
                (0u16).write(stream, protocol)?;
            },
            Option::Some(matrix) => {
                proof {
                    use_type_invariant(&matrix);
                }
                matrix.len.write(stream, protocol)?;
                matrix.height.write(stream, protocol)?;
                matrix.width.write(stream, protocol)?;
                let values = matrix.values();
                write_elements(values, stream, protocol)?;
            },
        }
        proof {
            assert(stream.out() =~= old(stream).out() + self.wire(protocol));
        }
        Ok(())
    }
}

/// A zone's encoding is bounded: the name, five fixed fields, and at
/// most 65535 matrix values of four bytes each.
pub proof fn lemma_zone_wire_len(z: Zone, protocol: u32)
    ensures
        z.wire(protocol).len() == spec_string_wire(z.name@).len() + 16 + (match z.deep_view().matrix {
            Option::None => 2int,
            Option::Some(m) => 10 + 4 * m.data.len() as int,
        }),
        z.wf(protocol) ==> z.wire(protocol).len() <= u32::MAX,
{
    lemma_auto_spec_u16_to_from_le_bytes();
    lemma_auto_spec_u32_to_from_le_bytes();
    lemma_string_wire_len(z.name@);
    match z.matrix {
        Option::None => {},
        Option::Some(m) => {
            lemma_wire_seq_u32_len(m.deep_view().data, protocol);
        },
    }
}

impl OpenRGBReadable for Zone {
    proof fn read_len_bound(bytes: Seq<u8>, protocol: u32) {
        lemma_read_zone_len(bytes, protocol);
    }

    open spec fn spec_read(bytes: Seq<u8>, protocol: u32) -> Result<(ZoneView, int), WireError> {
        spec_read_zone(bytes, protocol)
    }

    fn read<S: OpenRGBReadableSync>(stream: &mut S, protocol: u32) -> (r: Result<
        Zone,
        OpenRGBError,
    >) {
        let ghost bytes = old(stream).rem();
        proof {
            lemma_read_string_len(bytes);
        }
        let name = String::read(stream, protocol)?;
        let ghost c1 = spec_read_string(bytes)->Ok_0.1;
        let zone_type = ZoneType::read(stream, protocol)?;
        let ghost c2 = ZoneType::spec_read(bytes.skip(c1), protocol)->Ok_0.1;
        proof {
            assert(stream.rem() =~= bytes.skip(c1 + c2));
        }
        let leds_min = u32::read(stream, protocol)?;
        let ghost c3 = u32::spec_read(bytes.skip(c1 + c2), protocol)->Ok_0.1;
        proof {
            assert(stream.rem() =~= bytes.skip(c1 + c2 + c3));
        }
        let leds_max = u32::read(stream, protocol)?;
        let ghost c4 = u32::spec_read(bytes.skip(c1 + c2 + c3), protocol)->Ok_0.1;
        proof {
            assert(stream.rem() =~= bytes.skip(c1 + c2 + c3 + c4));
        }
        let leds_count = u32::read(stream, protocol)?;
        let ghost c5 = u32::spec_read(bytes.skip(c1 + c2 + c3 + c4), protocol)->Ok_0.1;
        let ghost o = c1 + c2 + c3 + c4 + c5;
        proof {
            assert(stream.rem() =~= bytes.skip(o));
        }
        let mlen = u16::read(stream, protocol)?;
        proof {
            assert(stream.rem() =~= bytes.skip(o + 2));
        }
        if mlen == 0 {
            return Ok(Zone { name, zone_type, leds_min, leds_max, leds_count, matrix: None });
        }
        let ghost mbytes = bytes.skip(o + 2);
        let height = u32::read(stream, protocol)?;
        let ghost c7 = u32::spec_read(mbytes, protocol)->Ok_0.1;
        let width = u32::read(stream, protocol)?;
        let ghost c8 = u32::spec_read(mbytes.skip(c7), protocol)->Ok_0.1;
        proof {
            assert(stream.rem() =~= mbytes.skip(c7 + c8));
        }
        let h64 = height as u64;
        let w64 = width as u64;
        proof {
            assert(h64 * w64 <= 0xffff_ffffu64 * 0xffff_ffffu64) by (nonlinear_arith)
                requires
                    h64 <= 0xffff_ffffu64,
                    w64 <= 0xffff_ffffu64,
            ;
        }
        let prod = h64 * w64;
        if prod == 0 || prod > 0xffff {
            return Err(OpenRGBError::ProtocolError("matrix size does not fit 16 bits".to_owned()));
        }
        let count = prod as u16;
        let values = read_elements::<S, u32>(stream, protocol, count)?;
        let ghost c9 = spec_read_seq::<u32>(mbytes.skip(c7 + c8), protocol, count as nat)->Ok_0.1;
        proof {
            lemma_read_seq_len::<u32>(mbytes.skip(c7 + c8), protocol, count as nat);
            assert(stream.rem() =~= bytes.skip(o + 2 + c7 + c8 + c9));
        }
        proof {
            assert(values.deep_view() =~= values@);
        }
        let matrix = match Matrix::new(height, width, values) {
            Some(m) => m,
            None => {
                return Err(OpenRGBError::ProtocolError("matrix size does not fit 16 bits".to_owned()));
            },
        };
        Ok(Zone { name, zone_type, leds_min, leds_max, leds_count, matrix: Some(matrix) })
    }
}

/// A parsed zone occupies some prefix of its bytes.
pub proof fn lemma_read_zone_len(bytes: Seq<u8>, protocol: u32)
    ensures
        spec_read_zone(bytes, protocol) matches Ok((v, n)) ==> 0 <= n <= bytes.len(),
{
    lemma_read_string_len(bytes);
    if spec_read_string(bytes) is Ok {
        let c1 = spec_read_string(bytes)->Ok_0.1;
        if ZoneType::spec_read(bytes.skip(c1), protocol) is Ok {
            let c2 = ZoneType::spec_read(bytes.skip(c1), protocol)->Ok_0.1;
            let o = c1 + c2 + 4 + 4 + 4;
            if u16::spec_read(bytes.skip(o), protocol) is Ok {
                let mbytes = bytes.skip(o + 2);
                if u32::spec_read(mbytes, protocol) is Ok && u32::spec_read(
                    mbytes.skip(4),
                    protocol,
                ) is Ok {
                    let height = u32::spec_read(mbytes, protocol)->Ok_0.0;
                    let width = u32::spec_read(mbytes.skip(4), protocol)->Ok_0.0;
                    if 0 < height * width <= 0xffff {
                        lemma_read_seq_len::<u32>(
                            mbytes.skip(8),
                            protocol,
                            (height * width) as nat,
                        );
                    }
                }
            }
        }
    }
}

impl OpenRGBCodec for Zone {
    proof fn round_trip(self, tail: Seq<u8>, protocol: u32) {
        lemma_auto_spec_u16_to_from_le_bytes();
        lemma_auto_spec_u32_to_from_le_bytes();
        let wn = spec_string_wire(self.name@);
        let wt = self.zone_type.wire(protocol);
        let w1 = self.leds_min.wire(protocol);
        let w2 = self.leds_max.wire(protocol);
        let w3 = self.leds_count.wire(protocol);
        let wm = match self.matrix {
            Option::None => spec_u16_to_le_bytes(0),
            Option::Some(m) => spec_matrix_wire(m.deep_view(), protocol),
        };
        let w = self.wire(protocol);
        let b = w + tail;
        let nl = wn.len() as int;
        assert(b =~= wn + (wt + (w1 + (w2 + (w3 + (wm + tail))))));
        lemma_string_round_trip(self.name@, wt + (w1 + (w2 + (w3 + (wm + tail)))));
        assert(b.skip(nl) =~= wt + (w1 + (w2 + (w3 + (wm + tail)))));
        self.zone_type.round_trip(w1 + (w2 + (w3 + (wm + tail))), protocol);
        assert(b.skip(nl + 4) =~= w1 + (w2 + (w3 + (wm + tail))));
        self.leds_min.round_trip(w2 + (w3 + (wm + tail)), protocol);
        assert(b.skip(nl + 8) =~= w2 + (w3 + (wm + tail)));
        self.leds_max.round_trip(w3 + (wm + tail), protocol);
        assert(b.skip(nl + 12) =~= w3 + (wm + tail));
        self.leds_count.round_trip(wm + tail, protocol);
        assert(b.skip(nl + 16) =~= wm + tail);
        match self.matrix {
            Option::None => {
                assert((wm + tail).take(2) =~= spec_u16_to_le_bytes(0));
                assert(self.matrix.deep_view() is None);
            },
            Option::Some(m) => {
                lemma_matrix_round_trip(m, tail, protocol);
                let mv = m.deep_view();
                let wd = spec_wire_seq(mv.data, protocol);
                assert((wm + tail).take(2) =~= spec_u16_to_le_bytes(mv.data.len() as u16));
                assert(b.skip(nl + 18) =~= (wm + tail).skip(2));
                assert((b.skip(nl + 18)).skip(4) =~= (wm + tail).skip(6));
                assert((b.skip(nl + 18)).skip(8) =~= (wm + tail).skip(10));
                assert(self.matrix.deep_view() == Some(mv));
                assert(self.deep_view().matrix == Some(mv));
            },
        }
    }
}

/// Round trip of the matrix segment of a zone.
proof fn lemma_matrix_round_trip(m: Matrix, tail: Seq<u8>, protocol: u32)
    requires
        spec_matrix_wf(m.deep_view()),
    ensures
        ({
            let mv = m.deep_view();
            let wm = spec_matrix_wire(mv, protocol);
            let n = mv.data.len();
            &&& (wm + tail).take(2) == spec_u16_to_le_bytes(n as u16)
            &&& n as u16 != 0
            &&& u32::spec_read((wm + tail).skip(2), protocol) == Ok::<_, WireError>((mv.height, 4int))
            &&& u32::spec_read((wm + tail).skip(6), protocol) == Ok::<_, WireError>((mv.width, 4int))
            &&& spec_read_seq::<u32>((wm + tail).skip(10), protocol, (mv.height * mv.width) as nat)
                == Ok::<_, WireError>((mv.data, spec_wire_seq(mv.data, protocol).len() as int))
            &&& (wm + tail).skip(10 + spec_wire_seq(mv.data, protocol).len() as int) == tail
        }),
{
    lemma_auto_spec_u16_to_from_le_bytes();
    lemma_auto_spec_u32_to_from_le_bytes();
    let mv = m.deep_view();
    let wm = spec_matrix_wire(mv, protocol);
    let wd = spec_wire_seq(mv.data, protocol);
    assert((wm + tail).take(2) =~= spec_u16_to_le_bytes(mv.data.len() as u16));
    assert(((wm + tail).skip(2)).take(4) =~= spec_u32_to_le_bytes(mv.height));
    assert(((wm + tail).skip(6)).take(4) =~= spec_u32_to_le_bytes(mv.width));
    assert((wm + tail).skip(10) =~= wd + tail);
    assert(spec_seq_wf(mv.data, protocol));
    lemma_read_seq_round_trip(mv.data, tail, protocol);
    assert(spec_deep_seq(mv.data) =~= mv.data);
    assert((wd + tail).skip(wd.len() as int) =~= tail);
    assert((wm + tail).skip(10 + wd.len() as int) =~= tail);
}

} // verus!
