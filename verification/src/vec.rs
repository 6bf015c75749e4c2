//! Codec for homogeneous sequences.
//!
//! A sequence travels as a 16-bit element count followed by each element
//! in order.  Encoding fails, rather than truncating the count, when the
//! sequence holds more than 65535 elements.
use vstd::prelude::*;
use vstd::bytes::{spec_u16_to_le_bytes, spec_u16_from_le_bytes, lemma_auto_spec_u16_to_from_le_bytes};

use crate::OpenRGBCodec;
use crate::OpenRGBError;
use crate::OpenRGBReadable;
use crate::OpenRGBWritable;
use crate::WireError;
use crate::err_matches;
use crate::protocol::{OpenRGBReadableSync, OpenRGBWritableSync, WriteStream};

verus! {

/// The largest element count a sequence can travel with.
pub const MAX_SEQUENCE_LEN: u16 = 0xffff;

/// The deep views of a sequence's elements, in order.
pub open spec fn spec_deep_seq<T: DeepView>(s: Seq<T>) -> Seq<T::V> {
    Seq::new(s.len(), |i: int| s[i].deep_view())
}

/// The concatenated encodings of a sequence's elements, in order.
pub open spec fn spec_wire_seq<T: OpenRGBWritable>(s: Seq<T>, protocol: u32) -> Seq<u8>
    decreases s.len(),
{
    if s.len() == 0 {
        Seq::empty()
    } else {
        s[0].wire(protocol) + spec_wire_seq(s.drop_first(), protocol)
    }
}

/// Whether every element of a sequence is encodable.
pub open spec fn spec_seq_wf<T: OpenRGBWritable>(s: Seq<T>, protocol: u32) -> bool {
    forall|i: int| 0 <= i < s.len() ==> (#[trigger] s[i]).wf(protocol)
}

/// The mathematical parser for `n` consecutive elements.
pub open spec fn spec_read_seq<T: OpenRGBReadable>(
    bytes: Seq<u8>,
    protocol: u32,
    n: nat,
) -> Result<(Seq<T::V>, int), WireError>
    decreases n,
{
    if n == 0 {
        Ok((Seq::empty(), 0))
    } else {
        match T::spec_read(bytes, protocol) {
            Err(k) => Err(k),
            Ok((v, c)) => match spec_read_seq::<T>(bytes.skip(c), protocol, (n - 1) as nat) {
                Err(k) => Err(k),
                Ok((vs, c2)) => Ok((seq![v] + vs, c + c2)),
            },
        }
    }
}

/// Element encodings concatenate: the encoding of `a + b` is the
/// encoding of `a` followed by the encoding of `b`.
pub proof fn lemma_wire_seq_concat<T: OpenRGBWritable>(a: Seq<T>, b: Seq<T>, protocol: u32)
    ensures
        spec_wire_seq(a + b, protocol) == spec_wire_seq(a, protocol) + spec_wire_seq(b, protocol),
    decreases a.len(),
{
    if a.len() == 0 {
        assert(a + b =~= b);
        assert(spec_wire_seq(a, protocol) + spec_wire_seq(b, protocol) =~= spec_wire_seq(
            b,
            protocol,
        ));
    } else {
        assert((a + b).drop_first() =~= a.drop_first() + b);
        lemma_wire_seq_concat(a.drop_first(), b, protocol);
        assert(spec_wire_seq(a + b, protocol) =~= spec_wire_seq(a, protocol) + spec_wire_seq(
            b,
            protocol,
        ));
    }
}

/// Appending one element appends its encoding.
pub proof fn lemma_wire_seq_snoc<T: OpenRGBWritable>(s: Seq<T>, x: T, protocol: u32)
    ensures
        spec_wire_seq(s.push(x), protocol) == spec_wire_seq(s, protocol) + x.wire(protocol),
{
    assert(s.push(x) =~= s + seq![x]);
    lemma_wire_seq_concat(s, seq![x], protocol);
    assert(seq![x].drop_first() =~= Seq::<T>::empty());
    assert(spec_wire_seq(Seq::<T>::empty(), protocol) =~= Seq::<u8>::empty());
    assert(spec_wire_seq(seq![x], protocol) =~= x.wire(protocol));
}

/// A prefix encodes to no more bytes than the whole sequence.
pub proof fn lemma_wire_seq_prefix_len<T: OpenRGBWritable>(s: Seq<T>, i: int, protocol: u32)
    requires
        0 <= i <= s.len(),
    ensures
        spec_wire_seq(s.take(i), protocol).len() <= spec_wire_seq(s, protocol).len(),
{
    assert(s =~= s.take(i) + s.skip(i));
    lemma_wire_seq_concat(s.take(i), s.skip(i), protocol);
}

/// Sum of the encoded sizes of the elements.
#[verifier::loop_isolation(false)]
pub fn size_elements<T: OpenRGBWritable>(elems: &Vec<T>, protocol: u32) -> (n: usize)
    requires
        spec_seq_wf(elems@, protocol),
        spec_wire_seq(elems@, protocol).len() <= u32::MAX,
    ensures
        n == spec_wire_seq(elems@, protocol).len(),
{
    let ghost s = elems@;
    let mut total: usize = 0;
    let mut i: usize = 0;
    while i < elems.len()
        invariant
            0 <= i <= s.len(),
            total == spec_wire_seq(s.take(i as int), protocol).len(),
        decreases s.len() - i,
    {
        proof {
            assert(s.take(i + 1) =~= s.take(i as int).push(s[i as int]));
            lemma_wire_seq_snoc(s.take(i as int), s[i as int], protocol);
            lemma_wire_seq_prefix_len(s, i + 1, protocol);
        }
        let e_size = elems[i].size(protocol);
        total = total + e_size;
        i = i + 1;
    }
    proof {
        assert(s.take(s.len() as int) =~= s);
    }
    total
}

/// Write the elements one after the other, with no count.  Succeeds
/// exactly when every element is encodable, and then appends exactly
/// their concatenated encodings.
#[verifier::loop_isolation(false)]
pub fn write_elements<S: OpenRGBWritableSync, T: OpenRGBWritable>(
    elems: Vec<T>,
    stream: &mut S,
    protocol: u32,
) -> (r: Result<(), OpenRGBError>)
    ensures
        r is Ok <==> spec_seq_wf(elems@, protocol),
        r is Ok ==> final(stream).out() == old(stream).out() + spec_wire_seq(elems@, protocol),
        r matches Err(e) ==> e is ProtocolError,
{
    let ghost s = elems@;
    let mut rest = elems;
    let ghost mut i: int = 0;
    while rest.len() > 0
        invariant
            0 <= i <= s.len(),
            rest@ == s.skip(i),
            stream.out() == old(stream).out() + spec_wire_seq(s.take(i), protocol),
            spec_seq_wf(s.take(i), protocol),
        decreases rest@.len(),
    {
        proof {
            assert(s.skip(i)[0] == s[i]);
        }
        let x = rest.remove(0);
        match x.write(stream, protocol) {
            Ok(u) => u,
            Err(e) => {
                proof {
                    assert(!s[i].wf(protocol));
                    assert(!spec_seq_wf(s, protocol));
                }
                return Err(e);
            },
        }
        proof {
            assert(s.take(i + 1) =~= s.take(i).push(s[i]));
            lemma_wire_seq_snoc(s.take(i), s[i], protocol);
            assert(rest@ =~= s.skip(i + 1));
            i = i + 1;
        }
    }
    proof {
        assert(s =~= s.take(i));
    }
    Ok(())
}

/// Read `n` elements one after the other, with no count.
#[verifier::loop_isolation(false)]
pub fn read_elements<S: OpenRGBReadableSync, T: OpenRGBReadable>(
    stream: &mut S,
    protocol: u32,
    n: u16,
) -> (r: Result<Vec<T>, OpenRGBError>)
    ensures
        match spec_read_seq::<T>(old(stream).rem(), protocol, n as nat) {
            Ok((vs, c)) => {
                &&& r matches Ok(w) && w.deep_view() == vs
                &&& final(stream).rem() == old(stream).rem().skip(c)
            },
            Err(k) => r matches Err(e) && err_matches(e, k),
        },
{
    let ghost bytes0 = old(stream).rem();
    let mut out: Vec<T> = Vec::new();
    let mut i: u16 = 0;
    let ghost mut consumed: int = 0;
    while i < n
        invariant
            0 <= i <= n,
            out@.len() == i as int,
            stream.rem() == bytes0.skip(consumed),
            0 <= consumed <= bytes0.len(),
            match spec_read_seq::<T>(stream.rem(), protocol, (n - i) as nat) {
                Ok((vs, c)) => spec_read_seq::<T>(bytes0, protocol, n as nat) == Ok::<
                    _,
                    WireError,
                >((out.deep_view() + vs, consumed + c)),
                Err(k) => spec_read_seq::<T>(bytes0, protocol, n as nat) == Err::<
                    (Seq<T::V>, int),
                    _,
                >(k),
            },
        decreases n - i,
    {
        let ghost rem_i = stream.rem();
        let ghost out_pre = out;
        let x = match T::read(stream, protocol) {
            Ok(x) => x,
            Err(e) => {
                proof {
                    let k = T::spec_read(rem_i, protocol)->Err_0;
                    assert(spec_read_seq::<T>(rem_i, protocol, (n - i) as nat) == Err::<
                        (Seq<T::V>, int),
                        WireError,
                    >(k));
                }
                return Err(e);
            },
        };
        proof {
            T::read_len_bound(rem_i, protocol);
            let (v, c) = T::spec_read(rem_i, protocol)->Ok_0;
            consumed = consumed + c;
            assert(stream.rem() =~= bytes0.skip(consumed));
        }
        out.push(x);
        i = i + 1;
        proof {
            let (v, c) = T::spec_read(rem_i, protocol)->Ok_0;
            assert(out@ =~= out_pre@.push(x));
            assert(out.deep_view() =~= out_pre.deep_view().push(x.deep_view()));
            if spec_read_seq::<T>(stream.rem(), protocol, (n - i) as nat) is Ok {
                let (vs, c2) = spec_read_seq::<T>(stream.rem(), protocol, (n - i) as nat)->Ok_0;
                assert(out_pre.deep_view() + (seq![v] + vs) =~= out.deep_view() + vs);
            }
        }
    }
    proof {
        assert(spec_read_seq::<T>(stream.rem(), protocol, 0) == Ok::<_, WireError>((
            Seq::<T::V>::empty(),
            0int,
        )));
        assert(out.deep_view() + Seq::<T::V>::empty() =~= out.deep_view());
    }
    Ok(out)
}

impl<T: OpenRGBWritable> OpenRGBWritable for Vec<T> {
    open spec fn wire(self, protocol: u32) -> Seq<u8> {
        spec_u16_to_le_bytes(self@.len() as u16) + spec_wire_seq(self@, protocol)
    }

    open spec fn wf(self, protocol: u32) -> bool {
        &&& self@.len() <= MAX_SEQUENCE_LEN
        &&& spec_seq_wf(self@, protocol)
        &&& self.wire(protocol).len() <= u32::MAX
    }

    proof fn wire_len_bound(self, protocol: u32) {
    }

    fn size(&self, protocol: u32) -> (n: usize) {
        proof {
            lemma_auto_spec_u16_to_from_le_bytes();
        }
        2 + size_elements(self, protocol)
    }

    #[verifier::loop_isolation(false)]
    fn write<S: OpenRGBWritableSync>(self, stream: &mut S, protocol: u32) -> (r: Result<
        (),
        OpenRGBError,
    >) {
        proof {
            lemma_auto_spec_u16_to_from_le_bytes();
        }
        let ghost s = self@;
        if self.len() > MAX_SEQUENCE_LEN as usize {
            return Err(OpenRGBError::ProtocolError("sequence does not fit 16-bit count".to_owned()));
        }
        let count: u16 = self.len() as u16;
        let mut tmp = WriteStream::new();
        write_elements(self, &mut tmp, protocol)?;
        if tmp.len() > (u32::MAX - 2) as usize {
            return Err(OpenRGBError::ProtocolError("sequence encoding too long".to_owned()));
        }
        count.write(stream, protocol)?;
        stream.write_all(tmp.as_bytes());
        proof {
            assert(stream.out() =~= old(stream).out() + self.wire(protocol));
        }
        Ok(())
    }
}

/// The element-run parser stays within its input and yields one view per
/// element.
pub proof fn lemma_read_seq_len<T: OpenRGBReadable>(bytes: Seq<u8>, protocol: u32, n: nat)
    ensures
        spec_read_seq::<T>(bytes, protocol, n) matches Ok((vs, c)) ==> 0 <= c <= bytes.len()
            && vs.len() == n,
    decreases n,
{
    if n == 0 {
    } else {
        T::read_len_bound(bytes, protocol);
        if T::spec_read(bytes, protocol) is Ok {
            let (v, c) = T::spec_read(bytes, protocol)->Ok_0;
            lemma_read_seq_len::<T>(bytes.skip(c), protocol, (n - 1) as nat);
        }
    }
}

impl<T: OpenRGBReadable> OpenRGBReadable for Vec<T> {
    proof fn read_len_bound(bytes: Seq<u8>, protocol: u32) {
        if u16::spec_read(bytes, protocol) is Ok {
            let (n, c1) = u16::spec_read(bytes, protocol)->Ok_0;
            lemma_read_seq_len::<T>(bytes.skip(c1), protocol, n as nat);
        }
    }

    open spec fn spec_read(bytes: Seq<u8>, protocol: u32) -> Result<(Seq<T::V>, int), WireError> {
        match u16::spec_read(bytes, protocol) {
            Err(k) => Err(k),
            Ok((n, c1)) => match spec_read_seq::<T>(bytes.skip(c1), protocol, n as nat) {
                Err(k) => Err(k),
                Ok((vs, c2)) => Ok((vs, c1 + c2)),
            },
        }
    }

    #[verifier::loop_isolation(false)]
    fn read<S: OpenRGBReadableSync>(stream: &mut S, protocol: u32) -> (r: Result<
        Vec<T>,
        OpenRGBError,
    >) {
        let n = u16::read(stream, protocol)?;
        let ghost bytes0 = old(stream).rem().skip(2);
        let out = read_elements::<S, T>(stream, protocol, n)?;
        proof {
            lemma_read_seq_len::<T>(bytes0, protocol, n as nat);
            if spec_read_seq::<T>(bytes0, protocol, n as nat) is Ok {
                let (vs, c) = spec_read_seq::<T>(bytes0, protocol, n as nat)->Ok_0;
                assert(stream.rem() =~= old(stream).rem().skip(2 + c));
            }
        }
        Ok(out)
    }
}

impl<T: OpenRGBCodec> OpenRGBCodec for Vec<T> {
    proof fn round_trip(self, tail: Seq<u8>, protocol: u32) {
        lemma_auto_spec_u16_to_from_le_bytes();
        let w = self.wire(protocol);
        assert((w + tail).take(2) =~= spec_u16_to_le_bytes(self@.len() as u16));
        assert((w + tail).skip(2) =~= spec_wire_seq(self@, protocol) + tail);
        lemma_read_seq_round_trip(self@, tail, protocol);
        assert(self.deep_view() =~= spec_deep_seq(self@));
    }
}

/// Round trip for the element run: parsing the concatenated encodings of
/// `n` encodable elements yields their deep views and consumes exactly
/// those bytes.
pub proof fn lemma_read_seq_round_trip<T: OpenRGBCodec>(s: Seq<T>, tail: Seq<u8>, protocol: u32)
    requires
        spec_seq_wf(s, protocol),
    ensures
        spec_read_seq::<T>(spec_wire_seq(s, protocol) + tail, protocol, s.len()) == Ok::<
            _,
            WireError,
        >((spec_deep_seq(s), spec_wire_seq(s, protocol).len() as int)),
    decreases s.len(),
{
    if s.len() == 0 {
        assert(spec_wire_seq(s, protocol) + tail =~= tail);
        assert(spec_deep_seq(s) =~= Seq::<T::V>::empty());
    } else {
        let first = s[0];
        let rest = s.drop_first();
        let w0 = first.wire(protocol);
        let wr = spec_wire_seq(rest, protocol);
        first.round_trip(wr + tail, protocol);
        assert(spec_wire_seq(s, protocol) + tail =~= w0 + (wr + tail));
        assert((w0 + (wr + tail)).skip(w0.len() as int) =~= wr + tail);
        lemma_read_seq_round_trip(rest, tail, protocol);
        assert(seq![first.deep_view()] + spec_deep_seq(rest) =~= spec_deep_seq(s));
    }
}

} // verus!
