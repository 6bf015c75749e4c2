//! The controller record: everything a device reports about itself.
//!
//! A controller encodes as its own 32-bit byte length followed by the
//! payload that length counts: device type, six descriptive strings, the
//! mode count, the active mode index, the modes, and the zone, LED and
//! color sequences.  The length is computed before any byte is written
//! and always equals the payload's true size.
use vstd::prelude::*;
use vstd::seq_lib::lemma_seq_skip_of_skip;
use vstd::bytes::{
    spec_u16_to_le_bytes, spec_u16_from_le_bytes, spec_u32_to_le_bytes, spec_u32_from_le_bytes,
    lemma_auto_spec_u16_to_from_le_bytes, lemma_auto_spec_u32_to_from_le_bytes,
};

use crate::OpenRGBCodec;
use crate::OpenRGBError;
use crate::OpenRGBReadable;
use crate::OpenRGBWritable;
use crate::WireError;
use crate::err_matches;
use crate::color::Color;
use crate::device_type::{DeviceType, spec_device_type_code, spec_device_type_from};
use crate::led::{LED, LedView, spec_led_wire, spec_led_wf, spec_read_led, lemma_read_led_len};
use crate::mode::{Mode, ModeView, spec_mode_wire, spec_mode_wf, spec_read_mode, lemma_read_mode_len};
use crate::protocol::{OpenRGBReadableSync, OpenRGBWritableSync, WriteStream};
use crate::string::{
    spec_string_wire, spec_string_wf, spec_read_string, lemma_string_round_trip,
    lemma_read_string_len, lemma_string_wire_len,
};
use crate::vec::{
    spec_wire_seq, spec_seq_wf, spec_read_seq, spec_deep_seq, lemma_read_seq_len,
    lemma_read_seq_round_trip, size_elements,
};
use crate::zone::{Zone, ZoneView, spec_zone_wire, spec_zone_wf, spec_read_zone, lemma_read_zone_len};

verus! {

/// RGB controller.
#[derive(Debug, PartialEq, Eq)]
pub struct Controller {
    /// Controller type.
    pub device_type: DeviceType,
    /// Controller name.
    pub name: String,
    /// Controller vendor.
    pub vendor: String,
    /// Controller description.
    pub description: String,
    /// Controller version.
    pub version: String,
    /// Controller serial.
    pub serial: String,
    /// Controller location.
    pub location: String,
    /// Controller active mode index; negative means no active mode.
    pub active_mode: i32,
    /// Controller modes.
    pub modes: Vec<Mode>,
    /// Controller zones.
    pub zones: Vec<Zone>,
    /// Controller LEDs.
    pub leds: Vec<LED>,
    /// Controller colors.
    pub colors: Vec<Color>,
}

/// Mathematical model of a [`Controller`].
pub struct ControllerView {
    /// Controller type.
    pub device_type: DeviceType,
    /// The name's characters.
    pub name: Seq<char>,
    /// The vendor's characters.
    pub vendor: Seq<char>,
    /// The description's characters.
    pub description: Seq<char>,
    /// The version's characters.
    pub version: Seq<char>,
    /// The serial's characters.
    pub serial: Seq<char>,
    /// The location's characters.
    pub location: Seq<char>,
    /// Active mode index.
    pub active_mode: i32,
    /// The modes.
    pub modes: Seq<ModeView>,
    /// The zones.
    pub zones: Seq<ZoneView>,
    /// The LEDs.
    pub leds: Seq<LedView>,
    /// The colors.
    pub colors: Seq<Color>,
}

impl DeepView for Controller {
    type V = ControllerView;

    open spec fn deep_view(&self) -> ControllerView {
        ControllerView {
            device_type: self.device_type,
            name: self.name.deep_view(),
            vendor: self.vendor.deep_view(),
            description: self.description.deep_view(),
            version: self.version.deep_view(),
            serial: self.serial.deep_view(),
            location: self.location.deep_view(),
            active_mode: self.active_mode,
            modes: self.modes.deep_view(),
            zones: self.zones.deep_view(),
            leds: self.leds.deep_view(),
            colors: self.colors.deep_view(),
        }
    }
}

/// The payload a controller encodes to: everything after the 32-bit
/// length field.
pub open spec fn spec_controller_payload(c: Controller, protocol: u32) -> Seq<u8> {
    spec_u32_to_le_bytes(spec_device_type_code(c.device_type)) + spec_string_wire(c.name@)
        + spec_string_wire(c.vendor@) + spec_string_wire(c.description@) + spec_string_wire(
        c.version@,
    ) + spec_string_wire(c.serial@) + spec_string_wire(c.location@) + spec_u16_to_le_bytes(
        c.modes@.len() as u16,
    ) + spec_u32_to_le_bytes(c.active_mode as u32) + spec_wire_modes(c.modes@, protocol)
        + spec_u16_to_le_bytes(c.zones@.len() as u16) + spec_wire_zones(c.zones@, protocol)
        + spec_u16_to_le_bytes(c.leds@.len() as u16) + spec_wire_leds(c.leds@, protocol)
        + spec_u16_to_le_bytes(c.colors@.len() as u16) + spec_wire_seq(c.colors@, protocol)
}


/// The concatenated encodings of a run of modes.
pub open spec fn spec_wire_modes(s: Seq<Mode>, protocol: u32) -> Seq<u8>
    decreases s.len(),
{
    if s.len() == 0 {
        Seq::empty()
    } else {
        spec_mode_wire(s[0], protocol) + spec_wire_modes(s.drop_first(), protocol)
    }
}

/// Whether every mode of a run is encodable.
pub open spec fn spec_modes_wf(s: Seq<Mode>, protocol: u32) -> bool {
    forall|i: int| 0 <= i < s.len() ==> spec_mode_wf(#[trigger] s[i], protocol)
}

/// The mathematical parser for a run of `n` modes.
pub open spec fn spec_read_modes(bytes: Seq<u8>, protocol: u32, n: nat) -> Result<
    (Seq<ModeView>, int),
    WireError,
>
    decreases n,
{
    if n == 0 {
        Ok((Seq::empty(), 0))
    } else {
        match spec_read_mode(bytes, protocol) {
            Err(k) => Err(k),
            Ok((v, c)) => match spec_read_modes(bytes.skip(c), protocol, (n - 1) as nat) {
                Err(k) => Err(k),
                Ok((vs, c2)) => Ok((seq![v] + vs, c + c2)),
            },
        }
    }
}

/// Mode run encodings concatenate.
#[verifier::rlimit(100)]
#[verifier::spinoff_prover]
proof fn lemma_wire_modes_concat(a: Seq<Mode>, b: Seq<Mode>, protocol: u32)
    ensures
        spec_wire_modes(a + b, protocol) == spec_wire_modes(a, protocol) + spec_wire_modes(
            b,
            protocol,
        ),
    decreases a.len(),
{
    if a.len() == 0 {
        assert(a + b =~= b);
        assert(spec_wire_modes(a, protocol) + spec_wire_modes(b, protocol) =~= spec_wire_modes(
            b,
            protocol,
        ));
    } else {
        assert((a + b).drop_first() =~= a.drop_first() + b);
        lemma_wire_modes_concat(a.drop_first(), b, protocol);
        assert(spec_wire_modes(a + b, protocol) =~= spec_wire_modes(a, protocol)
            + spec_wire_modes(b, protocol));
    }
}

/// Appending one mode appends its encoding.
#[verifier::rlimit(100)]
#[verifier::spinoff_prover]
proof fn lemma_wire_modes_snoc(s: Seq<Mode>, x: Mode, protocol: u32)
    ensures
        spec_wire_modes(s.push(x), protocol) == spec_wire_modes(s, protocol) + x.wire(protocol),
{
    assert(s.push(x) =~= s + seq![x]);
    lemma_wire_modes_concat(s, seq![x], protocol);
    assert(seq![x].drop_first() =~= Seq::<Mode>::empty());
    assert(spec_wire_modes(Seq::<Mode>::empty(), protocol) =~= Seq::<u8>::empty());
    assert(spec_wire_modes(seq![x], protocol) =~= x.wire(protocol));
}

/// A prefix of a mode run encodes to no more bytes than the whole run.
#[verifier::rlimit(100)]
#[verifier::spinoff_prover]
proof fn lemma_wire_modes_prefix_len(s: Seq<Mode>, i: int, protocol: u32)
    requires
        0 <= i <= s.len(),
    ensures
        spec_wire_modes(s.take(i), protocol).len() <= spec_wire_modes(s, protocol).len(),
{
    assert(s =~= s.take(i) + s.skip(i));
    lemma_wire_modes_concat(s.take(i), s.skip(i), protocol);
}

/// A parsed mode run occupies some prefix of its bytes, one view per
/// mode.
#[verifier::rlimit(100)]
#[verifier::spinoff_prover]
pub proof fn lemma_read_modes_len(bytes: Seq<u8>, protocol: u32, n: nat)
    ensures
        spec_read_modes(bytes, protocol, n) matches Ok((vs, c)) ==> 0 <= c <= bytes.len()
            && vs.len() == n,
    decreases n,
{
    if n != 0 {
        lemma_read_mode_len(bytes, protocol);
        if spec_read_mode(bytes, protocol) is Ok {
            let (v, c) = spec_read_mode(bytes, protocol)->Ok_0;
            lemma_read_modes_len(bytes.skip(c), protocol, (n - 1) as nat);
        }
    }
}

/// Round trip for a mode run: parsing the concatenated encodings of
/// encodable modes yields their views and consumes exactly those bytes.
#[verifier::rlimit(100)]
#[verifier::spinoff_prover]
pub proof fn lemma_modes_round_trip(s: Seq<Mode>, tail: Seq<u8>, protocol: u32)
    requires
        spec_modes_wf(s, protocol),
    ensures
        spec_read_modes(spec_wire_modes(s, protocol) + tail, protocol, s.len()) == Ok::<
            _,
            WireError,
        >((spec_deep_seq(s), spec_wire_modes(s, protocol).len() as int)),
    decreases s.len(),
{
    if s.len() == 0 {
        assert(spec_wire_modes(s, protocol) + tail =~= tail);
        assert(spec_deep_seq(s) =~= Seq::<ModeView>::empty());
    } else {
        let first = s[0];
        let rest = s.drop_first();
        let w0 = spec_mode_wire(first, protocol);
        let wr = spec_wire_modes(rest, protocol);
        first.round_trip(wr + tail, protocol);
        assert(spec_wire_modes(s, protocol) + tail =~= w0 + (wr + tail));
        assert((w0 + (wr + tail)).skip(w0.len() as int) =~= wr + tail);
        lemma_modes_round_trip(rest, tail, protocol);
        assert(seq![first.deep_view()] + spec_deep_seq(rest) =~= spec_deep_seq(s));
    }
}

/// Sum of the encoded sizes of a mode run.
#[verifier::rlimit(100)]
#[verifier::spinoff_prover]
#[verifier::loop_isolation(false)]
fn size_modes(elems: &Vec<Mode>, protocol: u32) -> (n: usize)
    requires
        spec_modes_wf(elems@, protocol),
        spec_wire_modes(elems@, protocol).len() <= u32::MAX,
    ensures
        n == spec_wire_modes(elems@, protocol).len(),
{
    let ghost s = elems@;
    let mut total: usize = 0;
    let mut i: usize = 0;
    while i < elems.len()
        invariant
            0 <= i <= s.len(),
            total == spec_wire_modes(s.take(i as int), protocol).len(),
        decreases s.len() - i,
    {
        proof {
            assert(s.take(i + 1) =~= s.take(i as int).push(s[i as int]));
            lemma_wire_modes_snoc(s.take(i as int), s[i as int], protocol);
            lemma_wire_modes_prefix_len(s, i + 1, protocol);
        }
        let e_size = elems[i].size(protocol);
        total = total + e_size;
        i = i + 1;
    }
    proof {
        assert(s.take(s.len() as int) =~= s);
    }
    total
}

/// Write a mode run, with no count.
#[verifier::rlimit(100)]
#[verifier::spinoff_prover]
#[verifier::loop_isolation(false)]
fn write_modes<S: OpenRGBWritableSync>(elems: Vec<Mode>, stream: &mut S, protocol: u32) -> (r:
    Result<(), OpenRGBError>)
    ensures
        r is Ok <==> spec_modes_wf(elems@, protocol),
        r is Ok ==> final(stream).out() == old(stream).out() + spec_wire_modes(elems@, protocol),
        r matches Err(e) ==> e is ProtocolError,
{
    let ghost s = elems@;
    let mut rest = elems;
    let ghost mut i: int = 0;
    while rest.len() > 0
        invariant
            0 <= i <= s.len(),
            rest@ == s.skip(i),
            stream.out() == old(stream).out() + spec_wire_modes(s.take(i), protocol),
            spec_modes_wf(s.take(i), protocol),
        decreases rest@.len(),
    {
        proof {
            assert(s.skip(i)[0] == s[i]);
        }
        let x = rest.remove(0);
        match x.write(stream, protocol) {
            Ok(u) => u,
            Err(e) => {
                proof {
                    assert(!s[i].wf(protocol));
                    assert(!spec_modes_wf(s, protocol));
                }
                return Err(e);
            },
        }
        proof {
            assert(s.take(i + 1) =~= s.take(i).push(s[i]));
            lemma_wire_modes_snoc(s.take(i), s[i], protocol);
            assert(rest@ =~= s.skip(i + 1));
            i = i + 1;
        }
    }
    proof {
        assert(s =~= s.take(i));
    }
    Ok(())
}

/// Read `n` modes, with no count.
#[verifier::rlimit(100)]
#[verifier::spinoff_prover]
#[verifier::loop_isolation(false)]
fn read_modes<S: OpenRGBReadableSync>(stream: &mut S, protocol: u32, n: u16) -> (r: Result<
    Vec<Mode>,
    OpenRGBError,
>)
    ensures
        match spec_read_modes(old(stream).rem(), protocol, n as nat) {
            Ok((vs, c)) => {
                &&& r matches Ok(w) && w.deep_view() == vs
                &&& final(stream).rem() == old(stream).rem().skip(c)
            },
            Err(k) => r matches Err(e) && err_matches(e, k),
        },
{
    let ghost bytes0 = old(stream).rem();
    let mut out: Vec<Mode> = Vec::new();
    let mut i: u16 = 0;
    let ghost mut consumed: int = 0;
    while i < n
        invariant
            0 <= i <= n,
            out@.len() == i as int,
            stream.rem() == bytes0.skip(consumed),
            0 <= consumed <= bytes0.len(),
            match spec_read_modes(stream.rem(), protocol, (n - i) as nat) {
                Ok((vs, c)) => spec_read_modes(bytes0, protocol, n as nat) == Ok::<
                    _,
                    WireError,
                >((out.deep_view() + vs, consumed + c)),
                Err(k) => spec_read_modes(bytes0, protocol, n as nat) == Err::<
                    (Seq<ModeView>, int),
                    _,
                >(k),
            },
        decreases n - i,
    {
        let ghost rem_i = stream.rem();
        let ghost out_pre = out;
        let x = match Mode::read(stream, protocol) {
            Ok(x) => x,
            Err(e) => {
                proof {
                    let k = spec_read_mode(rem_i, protocol)->Err_0;
                    assert(spec_read_modes(rem_i, protocol, (n - i) as nat) == Err::<
                        (Seq<ModeView>, int),
                        WireError,
                    >(k));
                }
                return Err(e);
            },
        };
        proof {
            lemma_read_mode_len(rem_i, protocol);
            let (v, c) = spec_read_mode(rem_i, protocol)->Ok_0;
            consumed = consumed + c;
            assert(stream.rem() =~= bytes0.skip(consumed));
        }
        out.push(x);
        i = i + 1;
        proof {
            let (v, c) = spec_read_mode(rem_i, protocol)->Ok_0;
            assert(out@ =~= out_pre@.push(x));
            assert(out.deep_view() =~= out_pre.deep_view().push(x.deep_view()));
            if spec_read_modes(stream.rem(), protocol, (n - i) as nat) is Ok {
                let (vs, c2) = spec_read_modes(stream.rem(), protocol, (n - i) as nat)->Ok_0;
                assert(out_pre.deep_view() + (seq![v] + vs) =~= out.deep_view() + vs);
            }
        }
    }
    proof {
        assert(spec_read_modes(stream.rem(), protocol, 0) == Ok::<_, WireError>((
            Seq::<ModeView>::empty(),
            0int,
        )));
        assert(out.deep_view() + Seq::<ModeView>::empty() =~= out.deep_view());
    }
    Ok(out)
}

/// The concatenated encodings of a run of zones.
pub open spec fn spec_wire_zones(s: Seq<Zone>, protocol: u32) -> Seq<u8>
    decreases s.len(),
{
    if s.len() == 0 {
        Seq::empty()
    } else {
        spec_zone_wire(s[0], protocol) + spec_wire_zones(s.drop_first(), protocol)
    }
}

/// Whether every zone of a run is encodable.
pub open spec fn spec_zones_wf(s: Seq<Zone>, protocol: u32) -> bool {
    forall|i: int| 0 <= i < s.len() ==> spec_zone_wf(#[trigger] s[i], protocol)
}

/// The mathematical parser for a run of `n` zones.
pub open spec fn spec_read_zones(bytes: Seq<u8>, protocol: u32, n: nat) -> Result<
    (Seq<ZoneView>, int),
    WireError,
>
    decreases n,
{
    if n == 0 {
        Ok((Seq::empty(), 0))
    } else {
        match spec_read_zone(bytes, protocol) {
            Err(k) => Err(k),
            Ok((v, c)) => match spec_read_zones(bytes.skip(c), protocol, (n - 1) as nat) {
                Err(k) => Err(k),
                Ok((vs, c2)) => Ok((seq![v] + vs, c + c2)),
            },
        }
    }
}

/// Zone run encodings concatenate.
#[verifier::rlimit(100)]
#[verifier::spinoff_prover]
proof fn lemma_wire_zones_concat(a: Seq<Zone>, b: Seq<Zone>, protocol: u32)
    ensures
        spec_wire_zones(a + b, protocol) == spec_wire_zones(a, protocol) + spec_wire_zones(
            b,
            protocol,
        ),
    decreases a.len(),
{
    if a.len() == 0 {
        assert(a + b =~= b);
        assert(spec_wire_zones(a, protocol) + spec_wire_zones(b, protocol) =~= spec_wire_zones(
            b,
            protocol,
        ));
    } else {
        assert((a + b).drop_first() =~= a.drop_first() + b);
        lemma_wire_zones_concat(a.drop_first(), b, protocol);
        assert(spec_wire_zones(a + b, protocol) =~= spec_wire_zones(a, protocol)
            + spec_wire_zones(b, protocol));
    }
}

/// Appending one zone appends its encoding.
#[verifier::rlimit(100)]
#[verifier::spinoff_prover]
proof fn lemma_wire_zones_snoc(s: Seq<Zone>, x: Zone, protocol: u32)
    ensures
        spec_wire_zones(s.push(x), protocol) == spec_wire_zones(s, protocol) + x.wire(protocol),
{
    assert(s.push(x) =~= s + seq![x]);
    lemma_wire_zones_concat(s, seq![x], protocol);
    assert(seq![x].drop_first() =~= Seq::<Zone>::empty());
    assert(spec_wire_zones(Seq::<Zone>::empty(), protocol) =~= Seq::<u8>::empty());
    assert(spec_wire_zones(seq![x], protocol) =~= x.wire(protocol));
}

/// A prefix of a zone run encodes to no more bytes than the whole run.
#[verifier::rlimit(100)]
#[verifier::spinoff_prover]
proof fn lemma_wire_zones_prefix_len(s: Seq<Zone>, i: int, protocol: u32)
    requires
        0 <= i <= s.len(),
    ensures
        spec_wire_zones(s.take(i), protocol).len() <= spec_wire_zones(s, protocol).len(),
{
    assert(s =~= s.take(i) + s.skip(i));
    lemma_wire_zones_concat(s.take(i), s.skip(i), protocol);
}

/// A parsed zone run occupies some prefix of its bytes, one view per
/// zone.
#[verifier::rlimit(100)]
#[verifier::spinoff_prover]
pub proof fn lemma_read_zones_len(bytes: Seq<u8>, protocol: u32, n: nat)
    ensures
        spec_read_zones(bytes, protocol, n) matches Ok((vs, c)) ==> 0 <= c <= bytes.len()
            && vs.len() == n,
    decreases n,
{
    if n != 0 {
        lemma_read_zone_len(bytes, protocol);
        if spec_read_zone(bytes, protocol) is Ok {
            let (v, c) = spec_read_zone(bytes, protocol)->Ok_0;
            lemma_read_zones_len(bytes.skip(c), protocol, (n - 1) as nat);
        }
    }
}

/// Round trip for a zone run: parsing the concatenated encodings of
/// encodable zones yields their views and consumes exactly those bytes.
#[verifier::rlimit(100)]
#[verifier::spinoff_prover]
pub proof fn lemma_zones_round_trip(s: Seq<Zone>, tail: Seq<u8>, protocol: u32)
    requires
        spec_zones_wf(s, protocol),
    ensures
        spec_read_zones(spec_wire_zones(s, protocol) + tail, protocol, s.len()) == Ok::<
            _,
            WireError,
        >((spec_deep_seq(s), spec_wire_zones(s, protocol).len() as int)),
    decreases s.len(),
{
    if s.len() == 0 {
        assert(spec_wire_zones(s, protocol) + tail =~= tail);
        assert(spec_deep_seq(s) =~= Seq::<ZoneView>::empty());
    } else {
        let first = s[0];
        let rest = s.drop_first();
        let w0 = spec_zone_wire(first, protocol);
        let wr = spec_wire_zones(rest, protocol);
        first.round_trip(wr + tail, protocol);
        assert(spec_wire_zones(s, protocol) + tail =~= w0 + (wr + tail));
        assert((w0 + (wr + tail)).skip(w0.len() as int) =~= wr + tail);
        lemma_zones_round_trip(rest, tail, protocol);
        assert(seq![first.deep_view()] + spec_deep_seq(rest) =~= spec_deep_seq(s));
    }
}

/// Sum of the encoded sizes of a zone run.
#[verifier::rlimit(100)]
#[verifier::spinoff_prover]
#[verifier::loop_isolation(false)]
fn size_zones(elems: &Vec<Zone>, protocol: u32) -> (n: usize)
    requires
        spec_zones_wf(elems@, protocol),
        spec_wire_zones(elems@, protocol).len() <= u32::MAX,
    ensures
        n == spec_wire_zones(elems@, protocol).len(),
{
    let ghost s = elems@;
    let mut total: usize = 0;
    let mut i: usize = 0;
    while i < elems.len()
        invariant
            0 <= i <= s.len(),
            total == spec_wire_zones(s.take(i as int), protocol).len(),
        decreases s.len() - i,
    {
        proof {
            assert(s.take(i + 1) =~= s.take(i as int).push(s[i as int]));
            lemma_wire_zones_snoc(s.take(i as int), s[i as int], protocol);
            lemma_wire_zones_prefix_len(s, i + 1, protocol);
        }
        let e_size = elems[i].size(protocol);
        total = total + e_size;
        i = i + 1;
    }
    proof {
        assert(s.take(s.len() as int) =~= s);
    }
    total
}

/// Write a zone run, with no count.
#[verifier::rlimit(100)]
#[verifier::spinoff_prover]
#[verifier::loop_isolation(false)]
fn write_zones<S: OpenRGBWritableSync>(elems: Vec<Zone>, stream: &mut S, protocol: u32) -> (r:
    Result<(), OpenRGBError>)
    ensures
        r is Ok <==> spec_zones_wf(elems@, protocol),
        r is Ok ==> final(stream).out() == old(stream).out() + spec_wire_zones(elems@, protocol),
        r matches Err(e) ==> e is ProtocolError,
{
    let ghost s = elems@;
    let mut rest = elems;
    let ghost mut i: int = 0;
    while rest.len() > 0
        invariant
            0 <= i <= s.len(),
            rest@ == s.skip(i),
            stream.out() == old(stream).out() + spec_wire_zones(s.take(i), protocol),
            spec_zones_wf(s.take(i), protocol),
        decreases rest@.len(),
    {
        proof {
            assert(s.skip(i)[0] == s[i]);
        }
        let x = rest.remove(0);
        match x.write(stream, protocol) {
            Ok(u) => u,
            Err(e) => {
                proof {
                    assert(!s[i].wf(protocol));
                    assert(!spec_zones_wf(s, protocol));
                }
                return Err(e);
            },
        }
        proof {
            assert(s.take(i + 1) =~= s.take(i).push(s[i]));
            lemma_wire_zones_snoc(s.take(i), s[i], protocol);
            assert(rest@ =~= s.skip(i + 1));
            i = i + 1;
        }
    }
    proof {
        assert(s =~= s.take(i));
    }
    Ok(())
}

/// Read `n` zones, with no count.
#[verifier::rlimit(100)]
#[verifier::spinoff_prover]
#[verifier::loop_isolation(false)]
fn read_zones<S: OpenRGBReadableSync>(stream: &mut S, protocol: u32, n: u16) -> (r: Result<
    Vec<Zone>,
    OpenRGBError,
>)
    ensures
        match spec_read_zones(old(stream).rem(), protocol, n as nat) {
            Ok((vs, c)) => {
                &&& r matches Ok(w) && w.deep_view() == vs
                &&& final(stream).rem() == old(stream).rem().skip(c)
            },
            Err(k) => r matches Err(e) && err_matches(e, k),
        },
{
    let ghost bytes0 = old(stream).rem();
    let mut out: Vec<Zone> = Vec::new();
    let mut i: u16 = 0;
    let ghost mut consumed: int = 0;
    while i < n
        invariant
            0 <= i <= n,
            out@.len() == i as int,
            stream.rem() == bytes0.skip(consumed),
            0 <= consumed <= bytes0.len(),
            match spec_read_zones(stream.rem(), protocol, (n - i) as nat) {
                Ok((vs, c)) => spec_read_zones(bytes0, protocol, n as nat) == Ok::<
                    _,
                    WireError,
                >((out.deep_view() + vs, consumed + c)),
                Err(k) => spec_read_zones(bytes0, protocol, n as nat) == Err::<
                    (Seq<ZoneView>, int),
                    _,
                >(k),
            },
        decreases n - i,
    {
        let ghost rem_i = stream.rem();
        let ghost out_pre = out;
        let x = match Zone::read(stream, protocol) {
            Ok(x) => x,
            Err(e) => {
                proof {
                    let k = spec_read_zone(rem_i, protocol)->Err_0;
                    assert(spec_read_zones(rem_i, protocol, (n - i) as nat) == Err::<
                        (Seq<ZoneView>, int),
                        WireError,
                    >(k));
                }
                return Err(e);
            },
        };
        proof {
            lemma_read_zone_len(rem_i, protocol);
            let (v, c) = spec_read_zone(rem_i, protocol)->Ok_0;
            consumed = consumed + c;
            assert(stream.rem() =~= bytes0.skip(consumed));
        }
        out.push(x);
        i = i + 1;
        proof {
            let (v, c) = spec_read_zone(rem_i, protocol)->Ok_0;
            assert(out@ =~= out_pre@.push(x));
            assert(out.deep_view() =~= out_pre.deep_view().push(x.deep_view()));
            if spec_read_zones(stream.rem(), protocol, (n - i) as nat) is Ok {
                let (vs, c2) = spec_read_zones(stream.rem(), protocol, (n - i) as nat)->Ok_0;
                assert(out_pre.deep_view() + (seq![v] + vs) =~= out.deep_view() + vs);
            }
        }
    }
    proof {
        assert(spec_read_zones(stream.rem(), protocol, 0) == Ok::<_, WireError>((
            Seq::<ZoneView>::empty(),
            0int,
        )));
        assert(out.deep_view() + Seq::<ZoneView>::empty() =~= out.deep_view());
    }
    Ok(out)
}


/// The concatenated encodings of a run of leds.
pub open spec fn spec_wire_leds(s: Seq<LED>, protocol: u32) -> Seq<u8>
    decreases s.len(),
{
    if s.len() == 0 {
        Seq::empty()
    } else {
        spec_led_wire(s[0], protocol) + spec_wire_leds(s.drop_first(), protocol)
    }
}

/// Whether every led of a run is encodable.
pub open spec fn spec_leds_wf(s: Seq<LED>, protocol: u32) -> bool {
    forall|i: int| 0 <= i < s.len() ==> spec_led_wf(#[trigger] s[i], protocol)
}

/// The mathematical parser for a run of `n` leds.
pub open spec fn spec_read_leds(bytes: Seq<u8>, protocol: u32, n: nat) -> Result<
    (Seq<LedView>, int),
    WireError,
>
    decreases n,
{
    if n == 0 {
        Ok((Seq::empty(), 0))
    } else {
        match spec_read_led(bytes, protocol) {
            Err(k) => Err(k),
            Ok((v, c)) => match spec_read_leds(bytes.skip(c), protocol, (n - 1) as nat) {
                Err(k) => Err(k),
                Ok((vs, c2)) => Ok((seq![v] + vs, c + c2)),
            },
        }
    }
}

/// LED run encodings concatenate.
#[verifier::rlimit(100)]
#[verifier::spinoff_prover]
proof fn lemma_wire_leds_concat(a: Seq<LED>, b: Seq<LED>, protocol: u32)
    ensures
        spec_wire_leds(a + b, protocol) == spec_wire_leds(a, protocol) + spec_wire_leds(
            b,
            protocol,
        ),
    decreases a.len(),
{
    if a.len() == 0 {
        assert(a + b =~= b);
        assert(spec_wire_leds(a, protocol) + spec_wire_leds(b, protocol) =~= spec_wire_leds(
            b,
            protocol,
        ));
    } else {
        assert((a + b).drop_first() =~= a.drop_first() + b);
        lemma_wire_leds_concat(a.drop_first(), b, protocol);
        assert(spec_wire_leds(a + b, protocol) =~= spec_wire_leds(a, protocol)
            + spec_wire_leds(b, protocol));
    }
}

/// Appending one led appends its encoding.
#[verifier::rlimit(100)]
#[verifier::spinoff_prover]
proof fn lemma_wire_leds_snoc(s: Seq<LED>, x: LED, protocol: u32)
    ensures
        spec_wire_leds(s.push(x), protocol) == spec_wire_leds(s, protocol) + x.wire(protocol),
{
    assert(s.push(x) =~= s + seq![x]);
    lemma_wire_leds_concat(s, seq![x], protocol);
    assert(seq![x].drop_first() =~= Seq::<LED>::empty());
    assert(spec_wire_leds(Seq::<LED>::empty(), protocol) =~= Seq::<u8>::empty());
    assert(spec_wire_leds(seq![x], protocol) =~= x.wire(protocol));
}

/// A prefix of a led run encodes to no more bytes than the whole run.
#[verifier::rlimit(100)]
#[verifier::spinoff_prover]
proof fn lemma_wire_leds_prefix_len(s: Seq<LED>, i: int, protocol: u32)
    requires
        0 <= i <= s.len(),
    ensures
        spec_wire_leds(s.take(i), protocol).len() <= spec_wire_leds(s, protocol).len(),
{
    assert(s =~= s.take(i) + s.skip(i));
    lemma_wire_leds_concat(s.take(i), s.skip(i), protocol);
}

/// A parsed led run occupies some prefix of its bytes, one view per
/// led.
#[verifier::rlimit(100)]
#[verifier::spinoff_prover]
pub proof fn lemma_read_leds_len(bytes: Seq<u8>, protocol: u32, n: nat)
    ensures
        spec_read_leds(bytes, protocol, n) matches Ok((vs, c)) ==> 0 <= c <= bytes.len()
            && vs.len() == n,
    decreases n,
{
    if n != 0 {
        lemma_read_led_len(bytes, protocol);
        if spec_read_led(bytes, protocol) is Ok {
            let (v, c) = spec_read_led(bytes, protocol)->Ok_0;
            lemma_read_leds_len(bytes.skip(c), protocol, (n - 1) as nat);
        }
    }
}

/// Round trip for a led run: parsing the concatenated encodings of
/// encodable leds yields their views and consumes exactly those bytes.
#[verifier::rlimit(100)]
#[verifier::spinoff_prover]
pub proof fn lemma_leds_round_trip(s: Seq<LED>, tail: Seq<u8>, protocol: u32)
    requires
        spec_leds_wf(s, protocol),
    ensures
        spec_read_leds(spec_wire_leds(s, protocol) + tail, protocol, s.len()) == Ok::<
            _,
            WireError,
        >((spec_deep_seq(s), spec_wire_leds(s, protocol).len() as int)),
    decreases s.len(),
{
    if s.len() == 0 {
        assert(spec_wire_leds(s, protocol) + tail =~= tail);
        assert(spec_deep_seq(s) =~= Seq::<LedView>::empty());
    } else {
        let first = s[0];
        let rest = s.drop_first();
        let w0 = spec_led_wire(first, protocol);
        let wr = spec_wire_leds(rest, protocol);
        first.round_trip(wr + tail, protocol);
        assert(spec_wire_leds(s, protocol) + tail =~= w0 + (wr + tail));
        assert((w0 + (wr + tail)).skip(w0.len() as int) =~= wr + tail);
        lemma_leds_round_trip(rest, tail, protocol);
        assert(seq![first.deep_view()] + spec_deep_seq(rest) =~= spec_deep_seq(s));
    }
}

/// Sum of the encoded sizes of a led run.
#[verifier::rlimit(100)]
#[verifier::spinoff_prover]
#[verifier::loop_isolation(false)]
fn size_leds(elems: &Vec<LED>, protocol: u32) -> (n: usize)
    requires
        spec_leds_wf(elems@, protocol),
        spec_wire_leds(elems@, protocol).len() <= u32::MAX,
    ensures
        n == spec_wire_leds(elems@, protocol).len(),
{
    let ghost s = elems@;
    let mut total: usize = 0;
    let mut i: usize = 0;
    while i < elems.len()
        invariant
            0 <= i <= s.len(),
            total == spec_wire_leds(s.take(i as int), protocol).len(),
        decreases s.len() - i,
    {
        proof {
            assert(s.take(i + 1) =~= s.take(i as int).push(s[i as int]));
            lemma_wire_leds_snoc(s.take(i as int), s[i as int], protocol);
            lemma_wire_leds_prefix_len(s, i + 1, protocol);
        }
        let e_size = elems[i].size(protocol);
        total = total + e_size;
        i = i + 1;
    }
    proof {
        assert(s.take(s.len() as int) =~= s);
    }
    total
}

/// Write a led run, with no count.
#[verifier::rlimit(100)]
#[verifier::spinoff_prover]
#[verifier::loop_isolation(false)]
fn write_leds<S: OpenRGBWritableSync>(elems: Vec<LED>, stream: &mut S, protocol: u32) -> (r:
    Result<(), OpenRGBError>)
    ensures
        r is Ok <==> spec_leds_wf(elems@, protocol),
        r is Ok ==> final(stream).out() == old(stream).out() + spec_wire_leds(elems@, protocol),
        r matches Err(e) ==> e is ProtocolError,
{
    let ghost s = elems@;
    let mut rest = elems;
    let ghost mut i: int = 0;
    while rest.len() > 0
        invariant
            0 <= i <= s.len(),
            rest@ == s.skip(i),
            stream.out() == old(stream).out() + spec_wire_leds(s.take(i), protocol),
            spec_leds_wf(s.take(i), protocol),
        decreases rest@.len(),
    {
        proof {
            assert(s.skip(i)[0] == s[i]);
        }
        let x = rest.remove(0);
        match x.write(stream, protocol) {
            Ok(u) => u,
            Err(e) => {
                proof {
                    assert(!s[i].wf(protocol));
                    assert(!spec_leds_wf(s, protocol));
                }
                return Err(e);
            },
        }
        proof {
            assert(s.take(i + 1) =~= s.take(i).push(s[i]));
            lemma_wire_leds_snoc(s.take(i), s[i], protocol);
            assert(rest@ =~= s.skip(i + 1));
            i = i + 1;
        }
    }
    proof {
        assert(s =~= s.take(i));
    }
    Ok(())
}

/// Read `n` leds, with no count.
#[verifier::rlimit(100)]
#[verifier::spinoff_prover]
#[verifier::loop_isolation(false)]
fn read_leds<S: OpenRGBReadableSync>(stream: &mut S, protocol: u32, n: u16) -> (r: Result<
    Vec<LED>,
    OpenRGBError,
>)
    ensures
        match spec_read_leds(old(stream).rem(), protocol, n as nat) {
            Ok((vs, c)) => {
                &&& r matches Ok(w) && w.deep_view() == vs
                &&& final(stream).rem() == old(stream).rem().skip(c)
            },
            Err(k) => r matches Err(e) && err_matches(e, k),
        },
{
    let ghost bytes0 = old(stream).rem();
    let mut out: Vec<LED> = Vec::new();
    let mut i: u16 = 0;
    let ghost mut consumed: int = 0;
    while i < n
        invariant
            0 <= i <= n,
            out@.len() == i as int,
            stream.rem() == bytes0.skip(consumed),
            0 <= consumed <= bytes0.len(),
            match spec_read_leds(stream.rem(), protocol, (n - i) as nat) {
                Ok((vs, c)) => spec_read_leds(bytes0, protocol, n as nat) == Ok::<
                    _,
                    WireError,
                >((out.deep_view() + vs, consumed + c)),
                Err(k) => spec_read_leds(bytes0, protocol, n as nat) == Err::<
                    (Seq<LedView>, int),
                    _,
                >(k),
            },
        decreases n - i,
    {
        let ghost rem_i = stream.rem();
        let ghost out_pre = out;
        let x = match LED::read(stream, protocol) {
            Ok(x) => x,
            Err(e) => {
                proof {
                    let k = spec_read_led(rem_i, protocol)->Err_0;
                    assert(spec_read_leds(rem_i, protocol, (n - i) as nat) == Err::<
                        (Seq<LedView>, int),
                        WireError,
                    >(k));
                }
                return Err(e);
            },
        };
        proof {
            lemma_read_led_len(rem_i, protocol);
            let (v, c) = spec_read_led(rem_i, protocol)->Ok_0;
            consumed = consumed + c;
            assert(stream.rem() =~= bytes0.skip(consumed));
        }
        out.push(x);
        i = i + 1;
        proof {
            let (v, c) = spec_read_led(rem_i, protocol)->Ok_0;
            assert(out@ =~= out_pre@.push(x));
            assert(out.deep_view() =~= out_pre.deep_view().push(x.deep_view()));
            if spec_read_leds(stream.rem(), protocol, (n - i) as nat) is Ok {
                let (vs, c2) = spec_read_leds(stream.rem(), protocol, (n - i) as nat)->Ok_0;
                assert(out_pre.deep_view() + (seq![v] + vs) =~= out.deep_view() + vs);
            }
        }
    }
    proof {
        assert(spec_read_leds(stream.rem(), protocol, 0) == Ok::<_, WireError>((
            Seq::<LedView>::empty(),
            0int,
        )));
        assert(out.deep_view() + Seq::<LedView>::empty() =~= out.deep_view());
    }
    Ok(out)
}


/// The run of six descriptive strings of a controller.
pub open spec fn spec_read_strings6(bytes: Seq<u8>) -> Result<
    ((Seq<char>, Seq<char>, Seq<char>, Seq<char>, Seq<char>, Seq<char>), int),
    WireError,
> {
    match spec_read_string(bytes) {
        Err(k) => Err(k),
        Ok((name, c1)) => match spec_read_string(bytes.skip(c1)) {
            Err(k) => Err(k),
            Ok((vendor, c2)) => match spec_read_string(bytes.skip(c1 + c2)) {
                Err(k) => Err(k),
                Ok((description, c3)) => match spec_read_string(bytes.skip(c1 + c2 + c3)) {
                    Err(k) => Err(k),
                    Ok((version, c4)) => match spec_read_string(bytes.skip(c1 + c2 + c3 + c4)) {
                        Err(k) => Err(k),
                        Ok((serial, c5)) => match spec_read_string(
                            bytes.skip(c1 + c2 + c3 + c4 + c5),
                        ) {
                            Err(k) => Err(k),
                            Ok((location, c6)) => Ok((
                                (name, vendor, description, version, serial, location),
                                c1 + c2 + c3 + c4 + c5 + c6,
                            )),
                        },
                    },
                },
            },
        },
    }
}

/// The bytes a controller encodes to: its payload length, then the
/// payload.
pub open spec fn spec_controller_wire(c: Controller, protocol: u32) -> Seq<u8> {
    spec_u32_to_le_bytes(spec_controller_payload(c, protocol).len() as u32)
        + spec_controller_payload(c, protocol)
}

/// Whether a controller can be encoded.
pub open spec fn spec_controller_wf(c: Controller, protocol: u32) -> bool {
    &&& spec_string_wf(c.name@)
    &&& spec_string_wf(c.vendor@)
    &&& spec_string_wf(c.description@)
    &&& spec_string_wf(c.version@)
    &&& spec_string_wf(c.serial@)
    &&& spec_string_wf(c.location@)
    &&& c.modes@.len() <= 0xffff
    &&& spec_modes_wf(c.modes@, protocol)
    &&& c.zones@.len() <= 0xffff
    &&& spec_zones_wf(c.zones@, protocol)
    &&& c.leds@.len() <= 0xffff
    &&& spec_leds_wf(c.leds@, protocol)
    &&& c.colors@.len() <= 0xffff
    &&& spec_seq_wf(c.colors@, protocol)
    &&& 2 + spec_wire_seq(c.colors@, protocol).len() <= u32::MAX
    &&& 4 + spec_controller_payload(c, protocol).len() <= u32::MAX
}

/// The mathematical parser for a controller.
pub open spec fn spec_read_controller(bytes: Seq<u8>, protocol: u32) -> Result<
    (ControllerView, int),
    WireError,
> {
    if bytes.len() < 8 {
        Err(WireError::Truncated)
    } else {
        let device_type = spec_device_type_from(spec_u32_from_le_bytes(bytes.subrange(4, 8)));
        match spec_read_strings6(bytes.skip(8)) {
            Err(k) => Err(k),
            Ok((ss, cs)) => spec_read_controller_tail(
                bytes.skip(8 + cs),
                protocol,
                device_type,
                ss,
                8 + cs,
            ),
        }
    }
}

/// The part of the controller parser after the strings: counts, the
/// active mode index, and the four sequences.
pub open spec fn spec_read_controller_tail(
    bytes: Seq<u8>,
    protocol: u32,
    device_type: DeviceType,
    ss: (Seq<char>, Seq<char>, Seq<char>, Seq<char>, Seq<char>, Seq<char>),
    offset: int,
) -> Result<(ControllerView, int), WireError> {
    if bytes.len() < 6 {
        Err(WireError::Truncated)
    } else {
        let num_modes = spec_u16_from_le_bytes(bytes.subrange(0, 2));
        let active_mode = spec_u32_from_le_bytes(bytes.subrange(2, 6)) as i32;
        match spec_read_modes(bytes.skip(6), protocol, num_modes as nat) {
            Err(k) => Err(k),
            Ok((modes, cm)) => match spec_read_controller_vecs(bytes.skip(6 + cm), protocol) {
                Err(k) => Err(k),
                Ok((vecs, cv)) => Ok((
                    ControllerView {
                        device_type,
                        name: ss.0,
                        vendor: ss.1,
                        description: ss.2,
                        version: ss.3,
                        serial: ss.4,
                        location: ss.5,
                        active_mode,
                        modes,
                        zones: vecs.0,
                        leds: vecs.1,
                        colors: vecs.2,
                    },
                    offset + 6 + cm + cv,
                )),
            },
        }
    }
}

/// The trailing three sequences of a controller: zones, LEDs, colors.
pub open spec fn spec_read_controller_vecs(bytes: Seq<u8>, protocol: u32) -> Result<
    ((Seq<ZoneView>, Seq<LedView>, Seq<Color>), int),
    WireError,
> {
    match u16::spec_read(bytes, protocol) {
        Err(k) => Err(k),
        Ok((nz, _c)) => match spec_read_zones(bytes.skip(2), protocol, nz as nat) {
            Err(k) => Err(k),
            Ok((zones, cz)) => match u16::spec_read(bytes.skip(2 + cz), protocol) {
                Err(k) => Err(k),
                Ok((nl, _c2)) => match spec_read_leds(bytes.skip(4 + cz), protocol, nl as nat) {
                    Err(k) => Err(k),
                    Ok((leds, cl)) => match u16::spec_read(bytes.skip(4 + cz + cl), protocol) {
                        Err(k) => Err(k),
                        Ok((nc, _c3)) => match spec_read_seq::<Color>(
                            bytes.skip(6 + cz + cl),
                            protocol,
                            nc as nat,
                        ) {
                            Err(k) => Err(k),
                            Ok((colors, cc)) => Ok((
                                (zones, leds, colors),
                                6 + cz + cl + cc,
                            )),
                        },
                    },
                },
            },
        },
    }
}

impl OpenRGBWritable for Controller {
    open spec fn wire(self, protocol: u32) -> Seq<u8> {
        spec_controller_wire(self, protocol)
    }

    open spec fn wf(self, protocol: u32) -> bool {
        spec_controller_wf(self, protocol)
    }

    proof fn wire_len_bound(self, protocol: u32) {
        lemma_auto_spec_u32_to_from_le_bytes();
    }

    #[verifier::rlimit(100)]
    fn size(&self, protocol: u32) -> (n: usize) {
        proof {
            lemma_auto_spec_u16_to_from_le_bytes();
            lemma_auto_spec_u32_to_from_le_bytes();
            lemma_controller_payload_len(*self, protocol);
            lemma_string_wire_len(self.name@);
            lemma_string_wire_len(self.vendor@);
            lemma_string_wire_len(self.description@);
            lemma_string_wire_len(self.version@);
            lemma_string_wire_len(self.serial@);
            lemma_string_wire_len(self.location@);
        }
        let mut total: usize = 4 + 4;
        total = total + self.name.size(protocol);
        total = total + self.vendor.size(protocol);
        total = total + self.description.size(protocol);
        total = total + self.version.size(protocol);
        total = total + self.serial.size(protocol);
        total = total + self.location.size(protocol);
        total = total + 2 + 4;
        total = total + size_modes(&self.modes, protocol);
        total = total + 2 + size_zones(&self.zones, protocol);
        total = total + 2 + size_leds(&self.leds, protocol);
        total = total + 2 + size_elements(&self.colors, protocol);
        total
    }

    #[verifier::rlimit(100)]
    fn write<S: OpenRGBWritableSync>(self, stream: &mut S, protocol: u32) -> (r: Result<
        (),
        OpenRGBError,
    >) {
        proof {
            lemma_auto_spec_u16_to_from_le_bytes();
            lemma_auto_spec_u32_to_from_le_bytes();
        }
        if self.modes.len() > 0xffff || self.zones.len() > 0xffff || self.leds.len() > 0xffff {
            return Err(OpenRGBError::ProtocolError("sequence does not fit 16-bit count".to_owned()));
        }
        let ghost c = self;
        let Controller {
            device_type,
            name,
            vendor,
            description,
            version,
            serial,
            location,
            active_mode,
            modes,
            zones,
            leds,
            colors,
        } = self;
        let num_modes: u16 = modes.len() as u16;
        let num_zones: u16 = zones.len() as u16;
        let num_leds: u16 = leds.len() as u16;
        let mut tmp = WriteStream::new();
        let _ = device_type.write(&mut tmp, protocol);
        name.write(&mut tmp, protocol)?;
        vendor.write(&mut tmp, protocol)?;
        description.write(&mut tmp, protocol)?;
        version.write(&mut tmp, protocol)?;
        serial.write(&mut tmp, protocol)?;
        location.write(&mut tmp, protocol)?;
        proof {
            assert(tmp.out() =~= spec_u32_to_le_bytes(spec_device_type_code(c.device_type))
                + spec_string_wire(c.name@) + spec_string_wire(c.vendor@) + spec_string_wire(
                c.description@,
            ) + spec_string_wire(c.version@) + spec_string_wire(c.serial@) + spec_string_wire(
                c.location@,
            ));
        }
        let ghost out_strings = tmp.out();
        let _ = num_modes.write(&mut tmp, protocol);
        let _ = active_mode.write(&mut tmp, protocol);
        write_modes(modes, &mut tmp, protocol)?;
        proof {
            assert(tmp.out() =~= out_strings + (spec_u16_to_le_bytes(c.modes@.len() as u16)
                + spec_u32_to_le_bytes(c.active_mode as u32) + spec_wire_modes(
                c.modes@,
                protocol,
            )));
        }
        let ghost out_modes = tmp.out();
        let _ = num_zones.write(&mut tmp, protocol);
        write_zones(zones, &mut tmp, protocol)?;
        let _ = num_leds.write(&mut tmp, protocol);
        write_leds(leds, &mut tmp, protocol)?;
        colors.write(&mut tmp, protocol)?;
        proof {
            assert(tmp.out() =~= out_modes + (spec_u16_to_le_bytes(c.zones@.len() as u16)
                + spec_wire_zones(c.zones@, protocol)) + (spec_u16_to_le_bytes(
                c.leds@.len() as u16,
            ) + spec_wire_leds(c.leds@, protocol)) + (spec_u16_to_le_bytes(c.colors@.len() as u16)
                + spec_wire_seq(c.colors@, protocol)));
            assert(tmp.out() =~= spec_controller_payload(c, protocol));
        }
        if tmp.len() > (u32::MAX - 4) as usize {
            return Err(OpenRGBError::ProtocolError("controller encoding too long".to_owned()));
        }
        let payload_len: u32 = tmp.len() as u32;
        let _ = payload_len.write(stream, protocol);
        stream.write_all(tmp.as_bytes());
        proof {
            assert(stream.out() =~= old(stream).out() + c.wire(protocol));
        }
        Ok(())
    }
}

/// The 32-bit length that opens a controller's encoding counts exactly
/// the bytes that follow it.
pub proof fn lemma_controller_length_prefix(c: Controller, protocol: u32)
    ensures
        spec_controller_wire(c, protocol).len() == 4 + spec_controller_payload(c, protocol).len(),
        spec_controller_payload(c, protocol).len() <= u32::MAX ==> spec_controller_wire(
            c,
            protocol,
        ).take(4) == spec_u32_to_le_bytes(spec_controller_payload(c, protocol).len() as u32),
{
    lemma_auto_spec_u32_to_from_le_bytes();
    assert(spec_controller_wire(c, protocol).take(4) =~= spec_u32_to_le_bytes(
        spec_controller_payload(c, protocol).len() as u32,
    ));
}

/// The payload length is the sum of the fixed fields, the strings, and
/// the element runs.
pub proof fn lemma_controller_payload_len(c: Controller, protocol: u32)
    ensures
        spec_controller_payload(c, protocol).len() == 16 + spec_string_wire(c.name@).len()
            + spec_string_wire(c.vendor@).len() + spec_string_wire(c.description@).len()
            + spec_string_wire(c.version@).len() + spec_string_wire(c.serial@).len()
            + spec_string_wire(c.location@).len() + spec_wire_modes(c.modes@, protocol).len()
            + spec_wire_zones(c.zones@, protocol).len() + spec_wire_leds(c.leds@, protocol).len()
            + spec_wire_seq(c.colors@, protocol).len(),
{
    lemma_auto_spec_u16_to_from_le_bytes();
    lemma_auto_spec_u32_to_from_le_bytes();
}

/// Read the six descriptive strings of a controller.
#[verifier::rlimit(100)]
fn read_strings6<S: OpenRGBReadableSync>(stream: &mut S, protocol: u32) -> (r: Result<
    (String, String, String, String, String, String),
    OpenRGBError,
>)
    ensures
        match spec_read_strings6(old(stream).rem()) {
            Ok((v, n)) => {
                &&& r matches Ok(w) && (
                    w.0@,
                    w.1@,
                    w.2@,
                    w.3@,
                    w.4@,
                    w.5@,
                ) == v
                &&& final(stream).rem() == old(stream).rem().skip(n)
            },
            Err(k) => r matches Err(e) && err_matches(e, k),
        },
{
    let ghost bytes = old(stream).rem();
    proof {
        lemma_read_string_len(bytes);
    }
    let name = String::read(stream, protocol)?;
    let ghost c1 = spec_read_string(bytes)->Ok_0.1;
    proof {
        lemma_read_string_len(bytes.skip(c1));
    }
    let vendor = String::read(stream, protocol)?;
    let ghost c2 = spec_read_string(bytes.skip(c1))->Ok_0.1;
    proof {
        lemma_seq_skip_of_skip(bytes, c1, c2);
        assert(stream.rem() =~= bytes.skip(c1 + c2));
        lemma_read_string_len(bytes.skip(c1 + c2));
    }
    let description = String::read(stream, protocol)?;
    let ghost c3 = spec_read_string(bytes.skip(c1 + c2))->Ok_0.1;
    proof {
        lemma_seq_skip_of_skip(bytes, c1 + c2, c3);
        assert(stream.rem() =~= bytes.skip(c1 + c2 + c3));
        lemma_read_string_len(bytes.skip(c1 + c2 + c3));
    }
    let version = String::read(stream, protocol)?;
    let ghost c4 = spec_read_string(bytes.skip(c1 + c2 + c3))->Ok_0.1;
    proof {
        lemma_seq_skip_of_skip(bytes, c1 + c2 + c3, c4);
        assert(stream.rem() =~= bytes.skip(c1 + c2 + c3 + c4));
        lemma_read_string_len(bytes.skip(c1 + c2 + c3 + c4));
    }
    let serial = String::read(stream, protocol)?;
    let ghost c5 = spec_read_string(bytes.skip(c1 + c2 + c3 + c4))->Ok_0.1;
    proof {
        lemma_seq_skip_of_skip(bytes, c1 + c2 + c3 + c4, c5);
        assert(stream.rem() =~= bytes.skip(c1 + c2 + c3 + c4 + c5));
        lemma_read_string_len(bytes.skip(c1 + c2 + c3 + c4 + c5));
    }
    let location = String::read(stream, protocol)?;
    let ghost c6 = spec_read_string(bytes.skip(c1 + c2 + c3 + c4 + c5))->Ok_0.1;
    proof {
        lemma_seq_skip_of_skip(bytes, c1 + c2 + c3 + c4 + c5, c6);
        assert(stream.rem() =~= bytes.skip(c1 + c2 + c3 + c4 + c5 + c6));
    }
    Ok((name, vendor, description, version, serial, location))
}

/// Read the trailing three sequences of a controller.
#[verifier::rlimit(100)]
fn read_controller_vecs<S: OpenRGBReadableSync>(stream: &mut S, protocol: u32) -> (r: Result<
    (Vec<Zone>, Vec<LED>, Vec<Color>),
    OpenRGBError,
>)
    ensures
        match spec_read_controller_vecs(old(stream).rem(), protocol) {
            Ok((v, n)) => {
                &&& r matches Ok(w) && (w.0.deep_view(), w.1.deep_view(), w.2.deep_view()) == v
                &&& final(stream).rem() == old(stream).rem().skip(n)
            },
            Err(k) => r matches Err(e) && err_matches(e, k),
        },
{
    let ghost vb = old(stream).rem();
    let nz_count = u16::read(stream, protocol)?;
    proof {
        assert(stream.rem() =~= vb.skip(2));
    }
    let zones = read_zones(stream, protocol, nz_count)?;
    let ghost nz = u16::spec_read(vb, protocol)->Ok_0.0;
    let ghost cz = spec_read_zones(vb.skip(2), protocol, nz as nat)->Ok_0.1;
    proof {
        lemma_read_zones_len(vb.skip(2), protocol, nz as nat);
        lemma_seq_skip_of_skip(vb, 2, cz);
        assert(stream.rem() =~= vb.skip(2 + cz));
        assert(u16::spec_read(vb.skip(2 + cz), protocol) is Ok ==> vb.skip(2 + cz).skip(2) =~= vb.skip(
            4 + cz,
        ));
    }
    let nl_count = u16::read(stream, protocol)?;
    proof {
        assert(stream.rem() =~= vb.skip(4 + cz));
    }
    let leds = read_leds(stream, protocol, nl_count)?;
    let ghost nl = u16::spec_read(vb.skip(2 + cz), protocol)->Ok_0.0;
    let ghost cl = spec_read_leds(vb.skip(4 + cz), protocol, nl as nat)->Ok_0.1;
    proof {
        lemma_read_leds_len(vb.skip(4 + cz), protocol, nl as nat);
        lemma_seq_skip_of_skip(vb, 4 + cz, cl);
        assert(stream.rem() =~= vb.skip(4 + cz + cl));
        assert(u16::spec_read(vb.skip(4 + cz + cl), protocol) is Ok ==> vb.skip(4 + cz + cl).skip(2)
            =~= vb.skip(6 + cz + cl));
    }
    let colors = Vec::<Color>::read(stream, protocol)?;
    let ghost nc = u16::spec_read(vb.skip(4 + cz + cl), protocol)->Ok_0.0;
    let ghost cc = spec_read_seq::<Color>(vb.skip(6 + cz + cl), protocol, nc as nat)->Ok_0.1;
    proof {
        lemma_read_seq_len::<Color>(vb.skip(6 + cz + cl), protocol, nc as nat);
        lemma_seq_skip_of_skip(vb, 6 + cz + cl, cc);
        assert(stream.rem() =~= vb.skip(6 + cz + cl + cc));
    }
    Ok((zones, leds, colors))
}

impl OpenRGBReadable for Controller {
    proof fn read_len_bound(bytes: Seq<u8>, protocol: u32) {
        lemma_read_controller_len(bytes, protocol);
    }

    open spec fn spec_read(bytes: Seq<u8>, protocol: u32) -> Result<
        (ControllerView, int),
        WireError,
    > {
        spec_read_controller(bytes, protocol)
    }

    #[verifier::rlimit(100)]
    fn read<S: OpenRGBReadableSync>(stream: &mut S, protocol: u32) -> (r: Result<
        Controller,
        OpenRGBError,
    >) {
        let ghost bytes = old(stream).rem();
        let _total_size = u32::read(stream, protocol)?;
        let device_type = DeviceType::read(stream, protocol)?;
        proof {
            assert(stream.rem() =~= bytes.skip(8));
            assert(bytes.subrange(4, 8) =~= bytes.skip(4).take(4));
        }
        let strings = read_strings6(stream, protocol)?;
        let ghost cs = spec_read_strings6(bytes.skip(8))->Ok_0.1;
        let ghost tb = bytes.skip(8 + cs);
        proof {
            lemma_read_strings6_len(bytes.skip(8));
            lemma_seq_skip_of_skip(bytes, 8, cs);
            assert(stream.rem() =~= tb);
        }
        let num_modes = u16::read(stream, protocol)?;
        proof {
            assert(stream.rem() =~= tb.skip(2));
            assert(tb.subrange(0, 2) =~= tb.take(2));
        }
        let active_mode = i32::read(stream, protocol)?;
        proof {
            lemma_seq_skip_of_skip(tb, 2, 4);
            assert(stream.rem() =~= tb.skip(6));
            assert(tb.subrange(2, 6) =~= tb.skip(2).take(4));
        }
        let modes = read_modes(stream, protocol, num_modes)?;
        let ghost cm = spec_read_modes(tb.skip(6), protocol, num_modes as nat)->Ok_0.1;
        let ghost vb = tb.skip(6 + cm);
        proof {
            lemma_read_modes_len(tb.skip(6), protocol, num_modes as nat);
            lemma_seq_skip_of_skip(tb, 6, cm);
            assert(stream.rem() =~= vb);
        }
        let vecs = read_controller_vecs(stream, protocol)?;
        let (zones, leds, colors) = vecs;
        let ghost cv = spec_read_controller_vecs(vb, protocol)->Ok_0.1;
        proof {
            lemma_read_controller_vecs_len(vb, protocol);
            lemma_seq_skip_of_skip(tb, 6 + cm, cv);
            lemma_seq_skip_of_skip(bytes, 8 + cs, 6 + cm + cv);
            assert(stream.rem() =~= bytes.skip(8 + cs + (6 + cm + cv)));
        }
        Ok(Controller {
            device_type,
            name: strings.0,
            vendor: strings.1,
            description: strings.2,
            version: strings.3,
            serial: strings.4,
            location: strings.5,
            active_mode,
            modes,
            zones,
            leds,
            colors,
        })
    }
}

/// The six strings occupy some prefix of their bytes.
pub proof fn lemma_read_strings6_len(bytes: Seq<u8>)
    ensures
        spec_read_strings6(bytes) matches Ok((v, n)) ==> 0 <= n <= bytes.len(),
{
    lemma_read_string_len(bytes);
    if spec_read_string(bytes) is Err {
        return ;
    }
    let c1 = spec_read_string(bytes)->Ok_0.1;
    lemma_read_string_len(bytes.skip(c1));
    if spec_read_string(bytes.skip(c1)) is Err {
        return ;
    }
    let c2 = spec_read_string(bytes.skip(c1))->Ok_0.1;
    lemma_read_string_len(bytes.skip(c1 + c2));
    if spec_read_string(bytes.skip(c1 + c2)) is Err {
        return ;
    }
    let c3 = spec_read_string(bytes.skip(c1 + c2))->Ok_0.1;
    lemma_read_string_len(bytes.skip(c1 + c2 + c3));
    if spec_read_string(bytes.skip(c1 + c2 + c3)) is Err {
        return ;
    }
    let c4 = spec_read_string(bytes.skip(c1 + c2 + c3))->Ok_0.1;
    lemma_read_string_len(bytes.skip(c1 + c2 + c3 + c4));
    if spec_read_string(bytes.skip(c1 + c2 + c3 + c4)) is Err {
        return ;
    }
    let c5 = spec_read_string(bytes.skip(c1 + c2 + c3 + c4))->Ok_0.1;
    lemma_read_string_len(bytes.skip(c1 + c2 + c3 + c4 + c5));
    if spec_read_string(bytes.skip(c1 + c2 + c3 + c4 + c5)) is Err {
        return ;
    }
}

/// The controller tail occupies some prefix of its bytes.
pub proof fn lemma_read_controller_vecs_len(bytes: Seq<u8>, protocol: u32)
    ensures
        spec_read_controller_vecs(bytes, protocol) matches Ok((v, n)) ==> 0 <= n <= bytes.len(),
{
    if u16::spec_read(bytes, protocol) is Err {
        return ;
    }
    let nz = u16::spec_read(bytes, protocol)->Ok_0.0;
    lemma_read_zones_len(bytes.skip(2), protocol, nz as nat);
    if spec_read_zones(bytes.skip(2), protocol, nz as nat) is Err {
        return ;
    }
    let cz = spec_read_zones(bytes.skip(2), protocol, nz as nat)->Ok_0.1;
    if u16::spec_read(bytes.skip(2 + cz), protocol) is Err {
        return ;
    }
    let nl = u16::spec_read(bytes.skip(2 + cz), protocol)->Ok_0.0;
    lemma_read_leds_len(bytes.skip(4 + cz), protocol, nl as nat);
    if spec_read_leds(bytes.skip(4 + cz), protocol, nl as nat) is Err {
        return ;
    }
    let cl = spec_read_leds(bytes.skip(4 + cz), protocol, nl as nat)->Ok_0.1;
    if u16::spec_read(bytes.skip(4 + cz + cl), protocol) is Err {
        return ;
    }
    let nc = u16::spec_read(bytes.skip(4 + cz + cl), protocol)->Ok_0.0;
    lemma_read_seq_len::<Color>(bytes.skip(6 + cz + cl), protocol, nc as nat);
}

/// A parsed controller occupies some prefix of its bytes.
pub proof fn lemma_read_controller_len(bytes: Seq<u8>, protocol: u32)
    ensures
        spec_read_controller(bytes, protocol) matches Ok((v, n)) ==> 0 <= n <= bytes.len(),
{
    if bytes.len() < 8 {
        return ;
    }
    lemma_read_strings6_len(bytes.skip(8));
    if spec_read_strings6(bytes.skip(8)) is Err {
        return ;
    }
    let cs = spec_read_strings6(bytes.skip(8))->Ok_0.1;
    let tb = bytes.skip(8 + cs);
    if tb.len() < 6 {
        return ;
    }
    let num_modes = spec_u16_from_le_bytes(tb.subrange(0, 2));
    lemma_read_modes_len(tb.skip(6), protocol, num_modes as nat);
    if spec_read_modes(tb.skip(6), protocol, num_modes as nat) is Err {
        return ;
    }
    let cm = spec_read_modes(tb.skip(6), protocol, num_modes as nat)->Ok_0.1;
    lemma_read_controller_vecs_len(tb.skip(6 + cm), protocol);
}

/// Round trip of the six descriptive strings.
#[verifier::rlimit(100)]
#[verifier::spinoff_prover]
proof fn lemma_strings6_round_trip(c: Controller, x: Seq<u8>, protocol: u32)
    requires
        spec_string_wf(c.name@),
        spec_string_wf(c.vendor@),
        spec_string_wf(c.description@),
        spec_string_wf(c.version@),
        spec_string_wf(c.serial@),
        spec_string_wf(c.location@),
    ensures
        ({
            let s1 = spec_string_wire(c.name@);
            let s2 = spec_string_wire(c.vendor@);
            let s3 = spec_string_wire(c.description@);
            let s4 = spec_string_wire(c.version@);
            let s5 = spec_string_wire(c.serial@);
            let s6 = spec_string_wire(c.location@);
            let b6 = s1 + (s2 + (s3 + (s4 + (s5 + (s6 + x)))));
            let l6 = s1.len() + s2.len() + s3.len() + s4.len() + s5.len() + s6.len();
            &&& spec_read_strings6(b6) == Ok::<
                ((Seq<char>, Seq<char>, Seq<char>, Seq<char>, Seq<char>, Seq<char>), int),
                WireError,
            >(
                (
                    (c.name@, c.vendor@, c.description@, c.version@, c.serial@, c.location@),
                    l6 as int,
                ),
            )
            &&& b6.skip(l6 as int) == x
        }),
{
    let s1 = spec_string_wire(c.name@);
    let s2 = spec_string_wire(c.vendor@);
    let s3 = spec_string_wire(c.description@);
    let s4 = spec_string_wire(c.version@);
    let s5 = spec_string_wire(c.serial@);
    let s6 = spec_string_wire(c.location@);
    let b6 = s1 + (s2 + (s3 + (s4 + (s5 + (s6 + x)))));
    let l1 = s1.len() as int;
    let l2 = l1 + s2.len() as int;
    let l3 = l2 + s3.len() as int;
    let l4 = l3 + s4.len() as int;
    let l5 = l4 + s5.len() as int;
    lemma_string_round_trip(c.name@, s2 + (s3 + (s4 + (s5 + (s6 + x)))));
    assert(b6.skip(l1) =~= s2 + (s3 + (s4 + (s5 + (s6 + x)))));
    lemma_string_round_trip(c.vendor@, s3 + (s4 + (s5 + (s6 + x))));
    assert(b6.skip(l2) =~= s3 + (s4 + (s5 + (s6 + x))));
    lemma_string_round_trip(c.description@, s4 + (s5 + (s6 + x)));
    assert(b6.skip(l3) =~= s4 + (s5 + (s6 + x)));
    lemma_string_round_trip(c.version@, s5 + (s6 + x));
    assert(b6.skip(l4) =~= s5 + (s6 + x));
    lemma_string_round_trip(c.serial@, s6 + x);
    assert(b6.skip(l5) =~= s6 + x);
    lemma_string_round_trip(c.location@, x);
    let l6 = l5 + s6.len() as int;
    assert(b6.skip(l6) =~= x);
}

/// Round trip of the trailing three sequences.
#[verifier::rlimit(100)]
#[verifier::spinoff_prover]
proof fn lemma_controller_vecs_round_trip(c: Controller, tail: Seq<u8>, protocol: u32)
    requires
        c.wf(protocol),
    ensures
        ({
            let wz = spec_wire_zones(c.zones@, protocol);
            let wl = spec_wire_leds(c.leds@, protocol);
            let wc = spec_wire_seq(c.colors@, protocol);
            let vs = spec_u16_to_le_bytes(c.zones@.len() as u16) + (wz + (spec_u16_to_le_bytes(
                c.leds@.len() as u16,
            ) + (wl + (spec_u16_to_le_bytes(c.colors@.len() as u16) + (wc + tail)))));
            spec_read_controller_vecs(vs, protocol) == Ok::<
                ((Seq<ZoneView>, Seq<LedView>, Seq<Color>), int),
                WireError,
            >(
                (
                    (c.zones.deep_view(), c.leds.deep_view(), c.colors.deep_view()),
                    vs.len() - tail.len(),
                ),
            )
        }),
{
    lemma_auto_spec_u16_to_from_le_bytes();
    let wz = spec_wire_zones(c.zones@, protocol);
    let wl = spec_wire_leds(c.leds@, protocol);
    let wc = spec_wire_seq(c.colors@, protocol);
    let tail_l = spec_u16_to_le_bytes(c.colors@.len() as u16) + (wc + tail);
    let tail_z = spec_u16_to_le_bytes(c.leds@.len() as u16) + (wl + tail_l);
    let vs = spec_u16_to_le_bytes(c.zones@.len() as u16) + (wz + tail_z);
    assert(vs.take(2) =~= spec_u16_to_le_bytes(c.zones@.len() as u16));
    assert(vs.skip(2) =~= wz + tail_z);
    lemma_zones_round_trip(c.zones@, tail_z, protocol);
    assert(vs.skip(2 + wz.len() as int) =~= tail_z);
    assert(tail_z.take(2) =~= spec_u16_to_le_bytes(c.leds@.len() as u16));
    assert(tail_z.skip(2) =~= wl + tail_l);
    lemma_leds_round_trip(c.leds@, tail_l, protocol);
    assert(vs.skip(4 + wz.len() as int) =~= wl + tail_l);
    assert(vs.skip(4 + wz.len() as int + wl.len() as int) =~= tail_l);
    assert(tail_l.take(2) =~= spec_u16_to_le_bytes(c.colors@.len() as u16));
    assert(tail_l.skip(2) =~= wc + tail);
    lemma_read_seq_round_trip(c.colors@, tail, protocol);
    assert(vs.skip(6 + wz.len() as int + wl.len() as int) =~= wc + tail);
    assert((wc + tail).skip(wc.len() as int) =~= tail);
    assert(c.zones.deep_view() =~= spec_deep_seq(c.zones@));
    assert(c.leds.deep_view() =~= spec_deep_seq(c.leds@));
    assert(c.colors.deep_view() =~= spec_deep_seq(c.colors@));
    assert(spec_deep_seq(c.colors@) =~= c.colors@);
}

/// Round trip of the controller tail: counts, active mode, modes, and
/// the trailing sequences.
#[verifier::rlimit(100)]
#[verifier::spinoff_prover]
proof fn lemma_controller_tail_round_trip(c: Controller, tail: Seq<u8>, protocol: u32, o: int)
    requires
        c.wf(protocol),
    ensures
        ({
            let wm = spec_wire_modes(c.modes@, protocol);
            let wz = spec_wire_zones(c.zones@, protocol);
            let wl = spec_wire_leds(c.leds@, protocol);
            let wc = spec_wire_seq(c.colors@, protocol);
            let ts = spec_u16_to_le_bytes(c.modes@.len() as u16) + (spec_u32_to_le_bytes(
                c.active_mode as u32,
            ) + (wm + (spec_u16_to_le_bytes(c.zones@.len() as u16) + (wz + (spec_u16_to_le_bytes(
                c.leds@.len() as u16,
            ) + (wl + (spec_u16_to_le_bytes(c.colors@.len() as u16) + (wc + tail))))))));
            spec_read_controller_tail(
                ts,
                protocol,
                c.device_type,
                (c.name@, c.vendor@, c.description@, c.version@, c.serial@, c.location@),
                o,
            ) == Ok::<(ControllerView, int), WireError>(
                (c.deep_view(), o + ts.len() - tail.len()),
            )
        }),
{
    lemma_auto_spec_u16_to_from_le_bytes();
    lemma_auto_spec_u32_to_from_le_bytes();
    let wm = spec_wire_modes(c.modes@, protocol);
    let wz = spec_wire_zones(c.zones@, protocol);
    let wl = spec_wire_leds(c.leds@, protocol);
    let wc = spec_wire_seq(c.colors@, protocol);
    let vs = spec_u16_to_le_bytes(c.zones@.len() as u16) + (wz + (spec_u16_to_le_bytes(
        c.leds@.len() as u16,
    ) + (wl + (spec_u16_to_le_bytes(c.colors@.len() as u16) + (wc + tail)))));
    let ts = spec_u16_to_le_bytes(c.modes@.len() as u16) + (spec_u32_to_le_bytes(
        c.active_mode as u32,
    ) + (wm + vs));
    assert(ts.subrange(0, 2) =~= spec_u16_to_le_bytes(c.modes@.len() as u16));
    assert(ts.subrange(2, 6) =~= spec_u32_to_le_bytes(c.active_mode as u32));
    assert(ts.skip(6) =~= wm + vs);
    lemma_modes_round_trip(c.modes@, vs, protocol);
    assert(ts.skip(6 + wm.len() as int) =~= vs);
    lemma_controller_vecs_round_trip(c, tail, protocol);
    assert(c.modes.deep_view() =~= spec_deep_seq(c.modes@));
    let x = c.active_mode;
    assert((x as u32) as i32 == x) by (bit_vector);
}

/// The controller's wire bytes split at the length field and at the
/// string run.
#[verifier::rlimit(100)]
#[verifier::spinoff_prover]
proof fn lemma_controller_wire_split(c: Controller, tail: Seq<u8>, protocol: u32)
    ensures
        ({
            let w = c.wire(protocol);
            let b = w + tail;
            let s1 = spec_string_wire(c.name@);
            let s2 = spec_string_wire(c.vendor@);
            let s3 = spec_string_wire(c.description@);
            let s4 = spec_string_wire(c.version@);
            let s5 = spec_string_wire(c.serial@);
            let s6 = spec_string_wire(c.location@);
            let wm = spec_wire_modes(c.modes@, protocol);
            let wz = spec_wire_zones(c.zones@, protocol);
            let wl = spec_wire_leds(c.leds@, protocol);
            let wc = spec_wire_seq(c.colors@, protocol);
            let ts = spec_u16_to_le_bytes(c.modes@.len() as u16) + (spec_u32_to_le_bytes(
                c.active_mode as u32,
            ) + (wm + (spec_u16_to_le_bytes(c.zones@.len() as u16) + (wz + (spec_u16_to_le_bytes(
                c.leds@.len() as u16,
            ) + (wl + (spec_u16_to_le_bytes(c.colors@.len() as u16) + (wc + tail))))))));
            &&& b.len() >= 8
            &&& b.subrange(4, 8) == spec_u32_to_le_bytes(spec_device_type_code(c.device_type))
            &&& b.skip(8) == s1 + (s2 + (s3 + (s4 + (s5 + (s6 + ts)))))
        }),
{
    lemma_auto_spec_u16_to_from_le_bytes();
    lemma_auto_spec_u32_to_from_le_bytes();
    let w = c.wire(protocol);
    let b = w + tail;
    let s1 = spec_string_wire(c.name@);
    let s2 = spec_string_wire(c.vendor@);
    let s3 = spec_string_wire(c.description@);
    let s4 = spec_string_wire(c.version@);
    let s5 = spec_string_wire(c.serial@);
    let s6 = spec_string_wire(c.location@);
    let wm = spec_wire_modes(c.modes@, protocol);
    let wz = spec_wire_zones(c.zones@, protocol);
    let wl = spec_wire_leds(c.leds@, protocol);
    let wc = spec_wire_seq(c.colors@, protocol);
    let ts = spec_u16_to_le_bytes(c.modes@.len() as u16) + (spec_u32_to_le_bytes(
        c.active_mode as u32,
    ) + (wm + (spec_u16_to_le_bytes(c.zones@.len() as u16) + (wz + (spec_u16_to_le_bytes(
        c.leds@.len() as u16,
    ) + (wl + (spec_u16_to_le_bytes(c.colors@.len() as u16) + (wc + tail))))))));
    assert(b.len() >= 8 && b.subrange(4, 8) =~= spec_u32_to_le_bytes(
        spec_device_type_code(c.device_type),
    )) by {
        lemma_auto_spec_u16_to_from_le_bytes();
        lemma_auto_spec_u32_to_from_le_bytes();
    }
    assert(b.skip(8) =~= s1 + (s2 + (s3 + (s4 + (s5 + (s6 + ts)))))) by {
        lemma_auto_spec_u16_to_from_le_bytes();
        lemma_auto_spec_u32_to_from_le_bytes();
    }
}

impl OpenRGBCodec for Controller {
    #[verifier::rlimit(100)]
    #[verifier::spinoff_prover]
    proof fn round_trip(self, tail: Seq<u8>, protocol: u32) {
        lemma_auto_spec_u32_to_from_le_bytes();
        let w = self.wire(protocol);
        let b = w + tail;
        assert(spec_device_type_from(spec_device_type_code(self.device_type))
            == self.device_type);
        let s1 = spec_string_wire(self.name@);
        let s2 = spec_string_wire(self.vendor@);
        let s3 = spec_string_wire(self.description@);
        let s4 = spec_string_wire(self.version@);
        let s5 = spec_string_wire(self.serial@);
        let s6 = spec_string_wire(self.location@);
        let wm = spec_wire_modes(self.modes@, protocol);
        let wz = spec_wire_zones(self.zones@, protocol);
        let wl = spec_wire_leds(self.leds@, protocol);
        let wc = spec_wire_seq(self.colors@, protocol);
        let ts = spec_u16_to_le_bytes(self.modes@.len() as u16) + (spec_u32_to_le_bytes(
            self.active_mode as u32,
        ) + (wm + (spec_u16_to_le_bytes(self.zones@.len() as u16) + (wz + (spec_u16_to_le_bytes(
            self.leds@.len() as u16,
        ) + (wl + (spec_u16_to_le_bytes(self.colors@.len() as u16) + (wc + tail))))))));
        let l6 = s1.len() + s2.len() + s3.len() + s4.len() + s5.len() + s6.len();
        lemma_controller_wire_split(self, tail, protocol);
        lemma_strings6_round_trip(self, ts, protocol);
        lemma_seq_skip_of_skip(b, 8, l6 as int);
        assert(b.skip(8 + l6 as int) == ts);
        lemma_controller_tail_round_trip(self, tail, protocol, 8 + l6 as int);
        assert(8 + l6 + ts.len() - tail.len() == w.len());
    }
}

} // verus!
