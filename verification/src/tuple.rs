//! Codec for fixed-arity tuples.
//!
//! A tuple travels as its components in declared order, with no count or
//! marker of its own; its size is the sum of its components' sizes.
use vstd::prelude::*;

use crate::OpenRGBCodec;
use crate::OpenRGBError;
use crate::OpenRGBReadable;
use crate::OpenRGBWritable;
use crate::WireError;
use crate::err_matches;
use crate::protocol::{OpenRGBReadableSync, OpenRGBWritableSync, WriteStream};

verus! {

impl<A: OpenRGBWritable, B: OpenRGBWritable> OpenRGBWritable for (A, B) {
    open spec fn wire(self, protocol: u32) -> Seq<u8> {
        self.0.wire(protocol) + self.1.wire(protocol)
    }

    open spec fn wf(self, protocol: u32) -> bool {
        &&& self.0.wf(protocol)
        &&& self.1.wf(protocol)
        &&& self.wire(protocol).len() <= u32::MAX
    }

    proof fn wire_len_bound(self, protocol: u32) {
    }

    fn size(&self, protocol: u32) -> (n: usize) {
        proof {
            self.0.wire_len_bound(protocol);
            self.1.wire_len_bound(protocol);
        }
        let first = self.0.size(protocol);
        let second = self.1.size(protocol);
        first + second
    }

    fn write<S: OpenRGBWritableSync>(self, stream: &mut S, protocol: u32) -> (r: Result<
        (),
        OpenRGBError,
    >) {
        let (a, b) = self;
        let mut tmp = WriteStream::new();
        a.write(&mut tmp, protocol)?;
        b.write(&mut tmp, protocol)?;
        if tmp.len() > u32::MAX as usize {
            return Err(OpenRGBError::ProtocolError("tuple encoding too long".to_owned()));
        }
        stream.write_all(tmp.as_bytes());
        proof {
            assert(tmp.out() =~= self.wire(protocol));
        }
        Ok(())
    }
}

impl<A: OpenRGBReadable, B: OpenRGBReadable> OpenRGBReadable for (A, B) {
    proof fn read_len_bound(bytes: Seq<u8>, protocol: u32) {
        A::read_len_bound(bytes, protocol);
        if A::spec_read(bytes, protocol) is Ok {
            let (av, ac) = A::spec_read(bytes, protocol)->Ok_0;
            B::read_len_bound(bytes.skip(ac), protocol);
        }
    }

    open spec fn spec_read(bytes: Seq<u8>, protocol: u32) -> Result<((A::V, B::V), int), WireError> {
        match A::spec_read(bytes, protocol) {
            Err(k) => Err(k),
            Ok((av, ac)) => match B::spec_read(bytes.skip(ac), protocol) {
                Err(k) => Err(k),
                Ok((bv, bc)) => Ok(((av, bv), ac + bc)),
            },
        }
    }

    fn read<S: OpenRGBReadableSync>(stream: &mut S, protocol: u32) -> (r: Result<
        (A, B),
        OpenRGBError,
    >) {
        let ghost bytes = old(stream).rem();
        proof {
            A::read_len_bound(bytes, protocol);
        }
        let a = A::read(stream, protocol)?;
        let ghost ac = A::spec_read(bytes, protocol)->Ok_0.1;
        proof {
            B::read_len_bound(bytes.skip(ac), protocol);
        }
        let b = B::read(stream, protocol)?;
        proof {
            let (bv, bc) = B::spec_read(bytes.skip(ac), protocol)->Ok_0;
            vstd::seq_lib::lemma_seq_skip_of_skip(bytes, ac, bc);
            assert(stream.rem() =~= bytes.skip(ac + bc));
        }
        Ok((a, b))
    }
}

impl<A: OpenRGBCodec, B: OpenRGBCodec> OpenRGBCodec for (A, B) {
    proof fn round_trip(self, tail: Seq<u8>, protocol: u32) {
        let wa = self.0.wire(protocol);
        let wb = self.1.wire(protocol);
        assert(self.wire(protocol) + tail =~= wa + (wb + tail));
        self.0.round_trip(wb + tail, protocol);
        assert((wa + (wb + tail)).skip(wa.len() as int) =~= wb + tail);
        self.1.round_trip(tail, protocol);
    }
}

impl<A: OpenRGBWritable, B: OpenRGBWritable, C: OpenRGBWritable> OpenRGBWritable for (A, B, C) {
    open spec fn wire(self, protocol: u32) -> Seq<u8> {
        self.0.wire(protocol) + self.1.wire(protocol) + self.2.wire(protocol)
    }

    open spec fn wf(self, protocol: u32) -> bool {
        &&& self.0.wf(protocol)
        &&& self.1.wf(protocol)
        &&& self.2.wf(protocol)
        &&& self.wire(protocol).len() <= u32::MAX
    }

    proof fn wire_len_bound(self, protocol: u32) {
    }

    fn size(&self, protocol: u32) -> (n: usize) {
        proof {
            self.0.wire_len_bound(protocol);
            self.1.wire_len_bound(protocol);
            self.2.wire_len_bound(protocol);
        }
        let first = self.0.size(protocol);
        let second = self.1.size(protocol);
        let third = self.2.size(protocol);
        first + second + third
    }

    fn write<S: OpenRGBWritableSync>(self, stream: &mut S, protocol: u32) -> (r: Result<
        (),
        OpenRGBError,
    >) {
        let (a, b, c) = self;
        let mut tmp = WriteStream::new();
        a.write(&mut tmp, protocol)?;
        b.write(&mut tmp, protocol)?;
        c.write(&mut tmp, protocol)?;
        if tmp.len() > u32::MAX as usize {
            return Err(OpenRGBError::ProtocolError("tuple encoding too long".to_owned()));
        }
        stream.write_all(tmp.as_bytes());
        proof {
            assert(tmp.out() =~= self.wire(protocol));
        }
        Ok(())
    }
}

impl<A: OpenRGBReadable, B: OpenRGBReadable, C: OpenRGBReadable> OpenRGBReadable for (A, B, C) {
    proof fn read_len_bound(bytes: Seq<u8>, protocol: u32) {
        A::read_len_bound(bytes, protocol);
        if A::spec_read(bytes, protocol) is Ok {
            let (av, ac) = A::spec_read(bytes, protocol)->Ok_0;
            B::read_len_bound(bytes.skip(ac), protocol);
            if B::spec_read(bytes.skip(ac), protocol) is Ok {
                let (bv, bc) = B::spec_read(bytes.skip(ac), protocol)->Ok_0;
                C::read_len_bound(bytes.skip(ac + bc), protocol);
                vstd::seq_lib::lemma_seq_skip_of_skip(bytes, ac, bc);
            }
        }
    }

    open spec fn spec_read(bytes: Seq<u8>, protocol: u32) -> Result<
        ((A::V, B::V, C::V), int),
        WireError,
    > {
        match A::spec_read(bytes, protocol) {
            Err(k) => Err(k),
            Ok((av, ac)) => match B::spec_read(bytes.skip(ac), protocol) {
                Err(k) => Err(k),
                Ok((bv, bc)) => match C::spec_read(bytes.skip(ac + bc), protocol) {
                    Err(k) => Err(k),
                    Ok((cv, cc)) => Ok(((av, bv, cv), ac + bc + cc)),
                },
            },
        }
    }

    fn read<S: OpenRGBReadableSync>(stream: &mut S, protocol: u32) -> (r: Result<
        (A, B, C),
        OpenRGBError,
    >) {
        let ghost bytes = old(stream).rem();
        proof {
            A::read_len_bound(bytes, protocol);
        }
        let a = A::read(stream, protocol)?;
        let ghost ac = A::spec_read(bytes, protocol)->Ok_0.1;
        proof {
            B::read_len_bound(bytes.skip(ac), protocol);
        }
        let b = B::read(stream, protocol)?;
        let ghost bc = B::spec_read(bytes.skip(ac), protocol)->Ok_0.1;
        proof {
            vstd::seq_lib::lemma_seq_skip_of_skip(bytes, ac, bc);
            assert(stream.rem() =~= bytes.skip(ac + bc));
        }
        let c = C::read(stream, protocol)?;
        let ghost cc = C::spec_read(bytes.skip(ac + bc), protocol)->Ok_0.1;
        proof {
            C::read_len_bound(bytes.skip(ac + bc), protocol);
            vstd::seq_lib::lemma_seq_skip_of_skip(bytes, ac + bc, cc);
            assert(stream.rem() =~= bytes.skip(ac + bc + cc));
        }
        Ok((a, b, c))
    }
}

impl<A: OpenRGBCodec, B: OpenRGBCodec, C: OpenRGBCodec> OpenRGBCodec for (A, B, C) {
    proof fn round_trip(self, tail: Seq<u8>, protocol: u32) {
        let wa = self.0.wire(protocol);
        let wb = self.1.wire(protocol);
        let wc = self.2.wire(protocol);
        let b = self.wire(protocol) + tail;
        assert(b =~= wa + (wb + (wc + tail)));
        self.0.round_trip(wb + (wc + tail), protocol);
        assert(b.skip(wa.len() as int) =~= wb + (wc + tail));
        self.1.round_trip(wc + tail, protocol);
        assert(b.skip(wa.len() + wb.len() as int) =~= wc + tail);
        self.2.round_trip(tail, protocol);
    }
}


impl<
    A: OpenRGBWritable,
    B: OpenRGBWritable,
    C: OpenRGBWritable,
    D: OpenRGBWritable,
> OpenRGBWritable for (A, B, C, D) {
    open spec fn wire(self, protocol: u32) -> Seq<u8> {
        self.0.wire(protocol) + self.1.wire(protocol) + self.2.wire(protocol) + self.3.wire(
            protocol,
        )
    }

    open spec fn wf(self, protocol: u32) -> bool {
        &&& self.0.wf(protocol)
        &&& self.1.wf(protocol)
        &&& self.2.wf(protocol)
        &&& self.3.wf(protocol)
        &&& self.wire(protocol).len() <= u32::MAX
    }

    proof fn wire_len_bound(self, protocol: u32) {
    }

    fn size(&self, protocol: u32) -> (n: usize) {
        proof {
            self.0.wire_len_bound(protocol);
            self.1.wire_len_bound(protocol);
            self.2.wire_len_bound(protocol);
            self.3.wire_len_bound(protocol);
        }
        let first = self.0.size(protocol);
        let second = self.1.size(protocol);
        let third = self.2.size(protocol);
        let fourth = self.3.size(protocol);
        first + second + third + fourth
    }

    fn write<S: OpenRGBWritableSync>(self, stream: &mut S, protocol: u32) -> (r: Result<
        (),
        OpenRGBError,
    >) {
        let (a, b, c, d) = self;
        let mut tmp = WriteStream::new();
        a.write(&mut tmp, protocol)?;
        b.write(&mut tmp, protocol)?;
        c.write(&mut tmp, protocol)?;
        d.write(&mut tmp, protocol)?;
        if tmp.len() > u32::MAX as usize {
            return Err(OpenRGBError::ProtocolError("tuple encoding too long".to_owned()));
        }
        stream.write_all(tmp.as_bytes());
        proof {
            assert(tmp.out() =~= self.wire(protocol));
        }
        Ok(())
    }
}

impl<
    A: OpenRGBReadable,
    B: OpenRGBReadable,
    C: OpenRGBReadable,
    D: OpenRGBReadable,
> OpenRGBReadable for (A, B, C, D) {
    proof fn read_len_bound(bytes: Seq<u8>, protocol: u32) {
        A::read_len_bound(bytes, protocol);
        if A::spec_read(bytes, protocol) is Ok {
            let (av, ac) = A::spec_read(bytes, protocol)->Ok_0;
            B::read_len_bound(bytes.skip(ac), protocol);
            if B::spec_read(bytes.skip(ac), protocol) is Ok {
                let (bv, bc) = B::spec_read(bytes.skip(ac), protocol)->Ok_0;
                C::read_len_bound(bytes.skip(ac + bc), protocol);
                vstd::seq_lib::lemma_seq_skip_of_skip(bytes, ac, bc);
                if C::spec_read(bytes.skip(ac + bc), protocol) is Ok {
                    let (cv, cc) = C::spec_read(bytes.skip(ac + bc), protocol)->Ok_0;
                    D::read_len_bound(bytes.skip(ac + bc + cc), protocol);
                    vstd::seq_lib::lemma_seq_skip_of_skip(bytes, ac + bc, cc);
                }
            }
        }
    }

    open spec fn spec_read(bytes: Seq<u8>, protocol: u32) -> Result<
        ((A::V, B::V, C::V, D::V), int),
        WireError,
    > {
        match A::spec_read(bytes, protocol) {
            Err(k) => Err(k),
            Ok((av, ac)) => match B::spec_read(bytes.skip(ac), protocol) {
                Err(k) => Err(k),
                Ok((bv, bc)) => match C::spec_read(bytes.skip(ac + bc), protocol) {
                    Err(k) => Err(k),
                    Ok((cv, cc)) => match D::spec_read(bytes.skip(ac + bc + cc), protocol) {
                        Err(k) => Err(k),
                        Ok((dv, dc)) => Ok(((av, bv, cv, dv), ac + bc + cc + dc)),
                    },
                },
            },
        }
    }

    fn read<S: OpenRGBReadableSync>(stream: &mut S, protocol: u32) -> (r: Result<
        (A, B, C, D),
        OpenRGBError,
    >) {
        let ghost bytes = old(stream).rem();
        proof {
            A::read_len_bound(bytes, protocol);
        }
        let a = A::read(stream, protocol)?;
        let ghost ac = A::spec_read(bytes, protocol)->Ok_0.1;
        proof {
            B::read_len_bound(bytes.skip(ac), protocol);
        }
        let b = B::read(stream, protocol)?;
        let ghost bc = B::spec_read(bytes.skip(ac), protocol)->Ok_0.1;
        proof {
            vstd::seq_lib::lemma_seq_skip_of_skip(bytes, ac, bc);
            assert(stream.rem() =~= bytes.skip(ac + bc));
            C::read_len_bound(bytes.skip(ac + bc), protocol);
        }
        let c = C::read(stream, protocol)?;
        let ghost cc = C::spec_read(bytes.skip(ac + bc), protocol)->Ok_0.1;
        proof {
            vstd::seq_lib::lemma_seq_skip_of_skip(bytes, ac + bc, cc);
            assert(stream.rem() =~= bytes.skip(ac + bc + cc));
            D::read_len_bound(bytes.skip(ac + bc + cc), protocol);
        }
        let d = D::read(stream, protocol)?;
        let ghost dc = D::spec_read(bytes.skip(ac + bc + cc), protocol)->Ok_0.1;
        proof {
            vstd::seq_lib::lemma_seq_skip_of_skip(bytes, ac + bc + cc, dc);
            assert(stream.rem() =~= bytes.skip(ac + bc + cc + dc));
        }
        Ok((a, b, c, d))
    }
}

impl<
    A: OpenRGBCodec,
    B: OpenRGBCodec,
    C: OpenRGBCodec,
    D: OpenRGBCodec,
> OpenRGBCodec for (A, B, C, D) {
    proof fn round_trip(self, tail: Seq<u8>, protocol: u32) {
        let wa = self.0.wire(protocol);
        let wb = self.1.wire(protocol);
        let wc = self.2.wire(protocol);
        let wd = self.3.wire(protocol);
        let b = self.wire(protocol) + tail;
        assert(b =~= wa + (wb + (wc + (wd + tail))));
        self.0.round_trip(wb + (wc + (wd + tail)), protocol);
        assert(b.skip(wa.len() as int) =~= wb + (wc + (wd + tail)));
        self.1.round_trip(wc + (wd + tail), protocol);
        assert(b.skip(wa.len() + wb.len() as int) =~= wc + (wd + tail));
        self.2.round_trip(wd + tail, protocol);
        assert(b.skip(wa.len() + wb.len() + wc.len() as int) =~= wd + tail);
        self.3.round_trip(tail, protocol);
    }
}

} // verus!
