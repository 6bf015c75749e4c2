//! Modes of a controller: a named animation with flag-gated parameters.
//!
//! Every numeric parameter travels unconditionally as a 32-bit field, but
//! is meaningful only when the matching flag bit is set: reading turns a
//! gated-off field into nothing, and writing puts zero on the wire for an
//! absent one.  The resolved color mode travels as a strict discriminant,
//! and the mode's own colors as a 16-bit-counted sequence.
use vstd::prelude::*;
use vstd::bytes::{
    spec_u16_to_le_bytes, spec_u32_to_le_bytes, spec_u32_from_le_bytes,
    lemma_auto_spec_u16_to_from_le_bytes, lemma_auto_spec_u32_to_from_le_bytes,
};

use crate::OpenRGBCodec;
use crate::OpenRGBError;
use crate::OpenRGBReadable;
use crate::OpenRGBWritable;
use crate::WireError;
use crate::color::Color;
use crate::color_mode::{ColorMode, spec_color_mode_code, spec_color_mode_from};
use crate::direction::{Direction, spec_direction_code, spec_direction_from};
use crate::mode_flag::{
    ModeFlag, ModeFlags, spec_flags_valid, spec_flags_contain, spec_flags_have_direction,
};
use crate::protocol::{OpenRGBReadableSync, OpenRGBWritableSync};
use crate::string::{
    spec_string_wire, spec_string_wf, spec_read_string, lemma_string_round_trip,
    lemma_read_string_len, lemma_string_wire_len,
};
use crate::vec::{
    spec_wire_seq, spec_seq_wf, spec_read_seq, spec_deep_seq, lemma_read_seq_len,
    lemma_read_seq_round_trip, write_elements, read_elements,
};

verus! {

/// RGB controller mode.
#[derive(Debug, Clone, PartialEq, Eq)]
pub struct Mode {
    /// Mode name.
    pub name: String,
    /// Mode numeric value.
    pub value: i32,
    /// Mode flags: which of the optional parameters are meaningful.
    pub flags: ModeFlags,
    /// Minimum speed, present exactly when the speed flag is set.
    pub speed_min: Option<u32>,
    /// Maximum speed, present exactly when the speed flag is set.
    pub speed_max: Option<u32>,
    /// Minimum brightness, present exactly when the brightness flag is set.
    pub brightness_min: Option<u32>,
    /// Maximum brightness, present exactly when the brightness flag is set.
    pub brightness_max: Option<u32>,
    /// Fewest colors, present exactly when the mode-specific-color flag is set.
    pub colors_min: Option<u32>,
    /// Most colors, present exactly when the mode-specific-color flag is set.
    pub colors_max: Option<u32>,
    /// Current speed, present exactly when the speed flag is set.
    pub speed: Option<u32>,
    /// Current brightness, present exactly when the brightness flag is set.
    pub brightness: Option<u32>,
    /// Direction, present exactly when a direction axis flag is set.
    pub direction: Option<Direction>,
    /// Resolved color mode.
    pub color_mode: Option<ColorMode>,
    /// The mode's own colors.
    pub colors: Vec<Color>,
}

/// Mathematical model of a [`Mode`].
pub struct ModeView {
    /// The name's characters.
    pub name: Seq<char>,
    /// Mode numeric value.
    pub value: i32,
    /// Raw flag bits.
    pub flags: u32,
    /// Minimum speed, when the speed flag is set.
    pub speed_min: Option<u32>,
    /// Maximum speed, when the speed flag is set.
    pub speed_max: Option<u32>,
    /// Minimum brightness, when the brightness flag is set.
    pub brightness_min: Option<u32>,
    /// Maximum brightness, when the brightness flag is set.
    pub brightness_max: Option<u32>,
    /// Fewest colors, when the mode-specific-color flag is set.
    pub colors_min: Option<u32>,
    /// Most colors, when the mode-specific-color flag is set.
    pub colors_max: Option<u32>,
    /// Current speed, when the speed flag is set.
    pub speed: Option<u32>,
    /// Current brightness, when the brightness flag is set.
    pub brightness: Option<u32>,
    /// Direction, when a direction axis flag is set.
    pub direction: Option<Direction>,
    /// Resolved color mode.
    pub color_mode: Option<ColorMode>,
    /// The mode's own colors.
    pub colors: Seq<Color>,
}

impl DeepView for Mode {
    type V = ModeView;

    open spec fn deep_view(&self) -> ModeView {
        ModeView {
            name: self.name.deep_view(),
            value: self.value,
            flags: self.flags.deep_view(),
            speed_min: self.speed_min,
            speed_max: self.speed_max,
            brightness_min: self.brightness_min,
            brightness_max: self.brightness_max,
            colors_min: self.colors_min,
            colors_max: self.colors_max,
            speed: self.speed,
            brightness: self.brightness,
            direction: self.direction,
            color_mode: self.color_mode,
            colors: self.colors@,
        }
    }
}

/// The 32-bit value a gated numeric field puts on the wire: its value
/// when present, zero when gated off.
pub open spec fn spec_gated(v: Option<u32>) -> u32 {
    match v {
        Option::Some(x) => x,
        Option::None => 0,
    }
}

/// The 32-bit value the direction field puts on the wire.
pub open spec fn spec_gated_direction(v: Option<Direction>) -> u32 {
    match v {
        Option::Some(d) => spec_direction_code(d),
        Option::None => 0,
    }
}

/// The 32-bit value the color mode field puts on the wire.
pub open spec fn spec_gated_color_mode(v: Option<ColorMode>) -> u32 {
    match v {
        Option::Some(c) => spec_color_mode_code(c),
        Option::None => 0,
    }
}


/// The encoding of a run of colors is four bytes per color.
pub proof fn lemma_wire_seq_color_len(s: Seq<Color>, protocol: u32)
    ensures
        spec_wire_seq(s, protocol).len() == 4 * s.len(),
    decreases s.len(),
{
    if s.len() > 0 {
        lemma_wire_seq_color_len(s.drop_first(), protocol);
    }
}

/// The mathematical parser for a mode.
pub open spec fn spec_read_mode(bytes: Seq<u8>, protocol: u32) -> Result<(ModeView, int), WireError> {
    match spec_read_string(bytes) {
        Err(k) => Err(k),
        Ok((name, c1)) => if bytes.len() < c1 + 8 {
            Err(WireError::Truncated)
        } else {
            let value = spec_u32_from_le_bytes(bytes.subrange(c1, c1 + 4)) as i32;
            let bits = spec_u32_from_le_bytes(bytes.subrange(c1 + 4, c1 + 8));
            if !spec_flags_valid(bits) {
                Err(WireError::BadFlags(bits))
            } else if bytes.len() < c1 + 48 {
                Err(WireError::Truncated)
            } else {
                let speed_min = spec_u32_from_le_bytes(bytes.subrange(c1 + 8, c1 + 12));
                let speed_max = spec_u32_from_le_bytes(bytes.subrange(c1 + 12, c1 + 16));
                let brightness_min = spec_u32_from_le_bytes(bytes.subrange(c1 + 16, c1 + 20));
                let brightness_max = spec_u32_from_le_bytes(bytes.subrange(c1 + 20, c1 + 24));
                let colors_min = spec_u32_from_le_bytes(bytes.subrange(c1 + 24, c1 + 28));
                let colors_max = spec_u32_from_le_bytes(bytes.subrange(c1 + 28, c1 + 32));
                let speed = spec_u32_from_le_bytes(bytes.subrange(c1 + 32, c1 + 36));
                let brightness = spec_u32_from_le_bytes(bytes.subrange(c1 + 36, c1 + 40));
                let dir_raw = spec_u32_from_le_bytes(bytes.subrange(c1 + 40, c1 + 44));
                let cm_raw = spec_u32_from_le_bytes(bytes.subrange(c1 + 44, c1 + 48));
                if spec_flags_have_direction(bits) && spec_direction_from(dir_raw) is None {
                    Err(WireError::BadValue)
                } else {
                    match spec_color_mode_from(cm_raw) {
                        Option::None => Err(WireError::BadValue),
                        Option::Some(color_mode) => match u16::spec_read(
                            bytes.skip(c1 + 48),
                            protocol,
                        ) {
                            Err(k) => Err(k),
                            Ok((count, _c)) => match spec_read_seq::<Color>(
                                bytes.skip(c1 + 50),
                                protocol,
                                count as nat,
                            ) {
                                Err(k) => Err(k),
                                Ok((colors, c9)) => Ok((
                                    ModeView {
                                        name,
                                        value,
                                        flags: bits,
                                        speed_min: if spec_flags_contain(
                                            bits,
                                            ModeFlag::HasSpeed,
                                        ) {
                                            Some(speed_min)
                                        } else {
                                            None
                                        },
                                        speed_max: if spec_flags_contain(
                                            bits,
                                            ModeFlag::HasSpeed,
                                        ) {
                                            Some(speed_max)
                                        } else {
                                            None
                                        },
                                        brightness_min: if spec_flags_contain(
                                            bits,
                                            ModeFlag::HasBrightness,
                                        ) {
                                            Some(brightness_min)
                                        } else {
                                            None
                                        },
                                        brightness_max: if spec_flags_contain(
                                            bits,
                                            ModeFlag::HasBrightness,
                                        ) {
                                            Some(brightness_max)
                                        } else {
                                            None
                                        },
                                        colors_min: if spec_flags_contain(
                                            bits,
                                            ModeFlag::HasModeSpecificColor,
                                        ) {
                                            Some(colors_min)
                                        } else {
                                            None
                                        },
                                        colors_max: if spec_flags_contain(
                                            bits,
                                            ModeFlag::HasModeSpecificColor,
                                        ) {
                                            Some(colors_max)
                                        } else {
                                            None
                                        },
                                        speed: if spec_flags_contain(bits, ModeFlag::HasSpeed) {
                                            Some(speed)
                                        } else {
                                            None
                                        },
                                        brightness: if spec_flags_contain(
                                            bits,
                                            ModeFlag::HasBrightness,
                                        ) {
                                            Some(brightness)
                                        } else {
                                            None
                                        },
                                        direction: if spec_flags_have_direction(bits) {
                                            spec_direction_from(dir_raw)
                                        } else {
                                            None
                                        },
                                        color_mode: Some(color_mode),
                                        colors,
                                    },
                                    c1 + 50 + c9,
                                )),
                            },
                        },
                    }
                }
            }
        },
    }
}

/// The twelve fixed 32-bit fields of a mode, in wire order.
pub open spec fn spec_mode_words_wire(m: Mode) -> Seq<u8> {
    spec_u32_to_le_bytes(m.value as u32) + spec_u32_to_le_bytes(m.flags.deep_view())
        + spec_u32_to_le_bytes(spec_gated(m.speed_min)) + spec_u32_to_le_bytes(
        spec_gated(m.speed_max),
    ) + spec_u32_to_le_bytes(spec_gated(m.brightness_min)) + spec_u32_to_le_bytes(
        spec_gated(m.brightness_max),
    ) + spec_u32_to_le_bytes(spec_gated(m.colors_min)) + spec_u32_to_le_bytes(
        spec_gated(m.colors_max),
    ) + spec_u32_to_le_bytes(spec_gated(m.speed)) + spec_u32_to_le_bytes(
        spec_gated(m.brightness),
    ) + spec_u32_to_le_bytes(spec_gated_direction(m.direction)) + spec_u32_to_le_bytes(
        spec_gated_color_mode(m.color_mode),
    )
}

/// A mode's encoding, grouped: name, the twelve fixed words, the color
/// count, the colors.
#[verifier::rlimit(100)]
pub proof fn lemma_mode_wire_grouped(m: Mode, protocol: u32)
    ensures
        m.wire(protocol) == spec_string_wire(m.name@) + spec_mode_words_wire(m)
            + spec_u16_to_le_bytes(m.colors@.len() as u16) + spec_wire_seq(m.colors@, protocol),
{
    lemma_auto_spec_u16_to_from_le_bytes();
    lemma_auto_spec_u32_to_from_le_bytes();
    assert(m.wire(protocol) =~= spec_string_wire(m.name@) + spec_mode_words_wire(m)
        + spec_u16_to_le_bytes(m.colors@.len() as u16) + spec_wire_seq(m.colors@, protocol));
}

/// Append the twelve fixed 32-bit fields of the mode.
#[verifier::rlimit(100)]
fn write_mode_words<S: OpenRGBWritableSync>(m: &Mode, stream: &mut S, protocol: u32)
    ensures
        final(stream).out() == old(stream).out() + spec_mode_words_wire(*m),
        spec_flags_valid(m.flags.deep_view()),
{
    proof {
        lemma_auto_spec_u32_to_from_le_bytes();
    }
    let _ = m.value.write(stream, protocol);
    let _ = m.flags.bits().write(stream, protocol);
    let _ = gated(&m.speed_min).write(stream, protocol);
    let _ = gated(&m.speed_max).write(stream, protocol);
    proof {
        assert(stream.out() =~= old(stream).out() + (spec_u32_to_le_bytes(m.value as u32)
            + spec_u32_to_le_bytes(m.flags.deep_view()) + spec_u32_to_le_bytes(
            spec_gated(m.speed_min),
        ) + spec_u32_to_le_bytes(spec_gated(m.speed_max))));
    }
    let ghost out4 = stream.out();
    let _ = gated(&m.brightness_min).write(stream, protocol);
    let _ = gated(&m.brightness_max).write(stream, protocol);
    let _ = gated(&m.colors_min).write(stream, protocol);
    let _ = gated(&m.colors_max).write(stream, protocol);
    proof {
        assert(stream.out() =~= out4 + (spec_u32_to_le_bytes(spec_gated(m.brightness_min))
            + spec_u32_to_le_bytes(spec_gated(m.brightness_max)) + spec_u32_to_le_bytes(
            spec_gated(m.colors_min),
        ) + spec_u32_to_le_bytes(spec_gated(m.colors_max))));
    }
    let ghost out8 = stream.out();
    let _ = gated(&m.speed).write(stream, protocol);
    let _ = gated(&m.brightness).write(stream, protocol);
    let dir_raw: u32 = match &m.direction {
        Option::Some(d) => d.to_u32(),
        Option::None => 0,
    };
    let _ = dir_raw.write(stream, protocol);
    let cm_raw: u32 = match &m.color_mode {
        Option::Some(c) => c.to_u32(),
        Option::None => 0,
    };
    let _ = cm_raw.write(stream, protocol);
    proof {
        assert(stream.out() =~= out8 + (spec_u32_to_le_bytes(spec_gated(m.speed))
            + spec_u32_to_le_bytes(spec_gated(m.brightness)) + spec_u32_to_le_bytes(
            spec_gated_direction(m.direction),
        ) + spec_u32_to_le_bytes(spec_gated_color_mode(m.color_mode))));
        assert(stream.out() =~= old(stream).out() + spec_mode_words_wire(*m));
    }
}

/// The bytes a mode encodes to.
pub open spec fn spec_mode_wire(m: Mode, protocol: u32) -> Seq<u8> {
    spec_string_wire(m.name@) + spec_u32_to_le_bytes(m.value as u32) + spec_u32_to_le_bytes(
        m.flags.deep_view(),
    ) + spec_u32_to_le_bytes(spec_gated(m.speed_min)) + spec_u32_to_le_bytes(
        spec_gated(m.speed_max),
    ) + spec_u32_to_le_bytes(spec_gated(m.brightness_min)) + spec_u32_to_le_bytes(
        spec_gated(m.brightness_max),
    ) + spec_u32_to_le_bytes(spec_gated(m.colors_min)) + spec_u32_to_le_bytes(
        spec_gated(m.colors_max),
    ) + spec_u32_to_le_bytes(spec_gated(m.speed)) + spec_u32_to_le_bytes(
        spec_gated(m.brightness),
    ) + spec_u32_to_le_bytes(spec_gated_direction(m.direction)) + spec_u32_to_le_bytes(
        spec_gated_color_mode(m.color_mode),
    ) + spec_u16_to_le_bytes(m.colors@.len() as u16) + spec_wire_seq(m.colors@, protocol)
}

/// Whether a mode can be encoded.
pub open spec fn spec_mode_wf(m: Mode, protocol: u32) -> bool {
    &&& spec_string_wf(m.name@)
    &&& spec_flags_valid(m.flags.deep_view())
    &&& m.speed_min is Some <==> spec_flags_contain(m.flags.deep_view(), ModeFlag::HasSpeed)
    &&& m.speed_max is Some <==> spec_flags_contain(m.flags.deep_view(), ModeFlag::HasSpeed)
    &&& m.speed is Some <==> spec_flags_contain(m.flags.deep_view(), ModeFlag::HasSpeed)
    &&& m.brightness_min is Some <==> spec_flags_contain(
        m.flags.deep_view(),
        ModeFlag::HasBrightness,
    )
    &&& m.brightness_max is Some <==> spec_flags_contain(
        m.flags.deep_view(),
        ModeFlag::HasBrightness,
    )
    &&& m.brightness is Some <==> spec_flags_contain(m.flags.deep_view(), ModeFlag::HasBrightness)
    &&& m.colors_min is Some <==> spec_flags_contain(
        m.flags.deep_view(),
        ModeFlag::HasModeSpecificColor,
    )
    &&& m.colors_max is Some <==> spec_flags_contain(
        m.flags.deep_view(),
        ModeFlag::HasModeSpecificColor,
    )
    &&& m.direction is Some <==> spec_flags_have_direction(m.flags.deep_view())
    &&& m.color_mode is Some
    &&& m.colors@.len() <= 0xffff
    &&& spec_seq_wf(m.colors@, protocol)
}

impl OpenRGBWritable for Mode {
    open spec fn wire(self, protocol: u32) -> Seq<u8> {
        spec_mode_wire(self, protocol)
    }

    open spec fn wf(self, protocol: u32) -> bool {
        spec_mode_wf(self, protocol)
    }

    proof fn wire_len_bound(self, protocol: u32) {
        lemma_mode_wire_len(self, protocol);
    }

    fn size(&self, protocol: u32) -> (n: usize) {
        proof {
            lemma_mode_wire_len(*self, protocol);
            lemma_string_wire_len(self.name@);
        }
        let name_size = self.name.size(protocol);
        name_size + 48 + 2 + 4 * self.colors.len()
    }

    #[verifier::rlimit(100)]
    fn write<S: OpenRGBWritableSync>(self, stream: &mut S, protocol: u32) -> (r: Result<
        (),
        OpenRGBError,
    >) {
        let has_speed = self.flags.contains(ModeFlag::HasSpeed);
        let has_brightness = self.flags.contains(ModeFlag::HasBrightness);
        let has_specific = self.flags.contains(ModeFlag::HasModeSpecificColor);
        let has_dir = self.flags.has_direction();
        let mismatch = self.speed_min.is_some() != has_speed || self.speed_max.is_some()
            != has_speed || self.speed.is_some() != has_speed || self.brightness_min.is_some()
            != has_brightness || self.brightness_max.is_some() != has_brightness
            || self.brightness.is_some() != has_brightness || self.colors_min.is_some()
            != has_specific || self.colors_max.is_some() != has_specific
            || self.direction.is_some() != has_dir || self.color_mode.is_none();
        if mismatch {
            return Err(OpenRGBError::ProtocolError(
                "mode fields do not agree with mode flags".to_owned(),
            ));
        }
        if self.colors.len() > 0xffff {
            return Err(OpenRGBError::ProtocolError("sequence does not fit 16-bit count".to_owned()));
        }
        let name = self.name.clone();
        name.write(stream, protocol)?;
        write_mode_words(&self, stream, protocol);
        let ghost out_words = stream.out();
        let count: u16 = self.colors.len() as u16;
        let _ = count.write(stream, protocol);
        proof {
            assert(spec_seq_wf(self.colors@, protocol));
        }
        let ghost colors_snapshot = self.colors@;
        let _ = write_elements(self.colors, stream, protocol);
        proof {
            assert(stream.out() =~= out_words + (spec_u16_to_le_bytes(
                colors_snapshot.len() as u16,
            ) + spec_wire_seq(colors_snapshot, protocol)));
            lemma_mode_wire_grouped(self, protocol);
            assert(stream.out() =~= old(stream).out() + (spec_string_wire(self.name@)
                + spec_mode_words_wire(self) + spec_u16_to_le_bytes(colors_snapshot.len() as u16)
                + spec_wire_seq(colors_snapshot, protocol)));
        }
        Ok(())
    }
}

/// The 32-bit value a gated numeric field puts on the wire.
fn gated(v: &Option<u32>) -> (r: u32)
    ensures
        r == spec_gated(*v),
{
    match v {
        Option::Some(x) => *x,
        Option::None => 0,
    }
}

/// A mode's encoding is its name's, fifty fixed bytes, and four bytes
/// per color.
pub proof fn lemma_mode_wire_len(m: Mode, protocol: u32)
    ensures
        m.wire(protocol).len() == spec_string_wire(m.name@).len() + 50 + 4 * m.colors@.len(),
        m.wf(protocol) ==> m.wire(protocol).len() <= u32::MAX,
{
    lemma_auto_spec_u16_to_from_le_bytes();
    lemma_auto_spec_u32_to_from_le_bytes();
    lemma_string_wire_len(m.name@);
    lemma_wire_seq_color_len(m.colors@, protocol);
}

impl OpenRGBReadable for Mode {
    proof fn read_len_bound(bytes: Seq<u8>, protocol: u32) {
        lemma_read_mode_len(bytes, protocol);
    }

    open spec fn spec_read(bytes: Seq<u8>, protocol: u32) -> Result<(ModeView, int), WireError> {
        spec_read_mode(bytes, protocol)
    }

    #[verifier::rlimit(100)]
    #[verifier::loop_isolation(false)]
    fn read<S: OpenRGBReadableSync>(stream: &mut S, protocol: u32) -> (r: Result<
        Mode,
        OpenRGBError,
    >) {
        let ghost bytes = old(stream).rem();
        proof {
            lemma_read_string_len(bytes);
            lemma_auto_spec_u32_to_from_le_bytes();
        }
        let name = String::read(stream, protocol)?;
        let ghost c1 = spec_read_string(bytes)->Ok_0.1;
        let value = i32::read(stream, protocol)?;
        proof {
            assert(stream.rem() =~= bytes.skip(c1 + 4));
            assert(bytes.subrange(c1, c1 + 4) =~= bytes.skip(c1).take(4));
            assert(bytes.len() >= c1 + 8 ==> bytes.subrange(c1 + 4, c1 + 8) =~= bytes.skip(
                c1 + 4,
            ).take(4));
        }
        let flags = ModeFlags::read(stream, protocol)?;
        proof {
            assert(stream.rem() =~= bytes.skip(c1 + 8));
        }
        let speed_min_raw = u32::read(stream, protocol)?;
        proof {
            assert(stream.rem() =~= bytes.skip(c1 + 12));
            assert(bytes.subrange(c1 + 8, c1 + 12) =~= bytes.skip(c1 + 8).take(4));
        }
        let speed_max_raw = u32::read(stream, protocol)?;
        proof {
            assert(stream.rem() =~= bytes.skip(c1 + 16));
            assert(bytes.subrange(c1 + 12, c1 + 16) =~= bytes.skip(c1 + 12).take(4));
        }
        let brightness_min_raw = u32::read(stream, protocol)?;
        proof {
            assert(stream.rem() =~= bytes.skip(c1 + 20));
            assert(bytes.subrange(c1 + 16, c1 + 20) =~= bytes.skip(c1 + 16).take(4));
        }
        let brightness_max_raw = u32::read(stream, protocol)?;
        proof {
            assert(stream.rem() =~= bytes.skip(c1 + 24));
            assert(bytes.subrange(c1 + 20, c1 + 24) =~= bytes.skip(c1 + 20).take(4));
        }
        let colors_min_raw = u32::read(stream, protocol)?;
        proof {
            assert(stream.rem() =~= bytes.skip(c1 + 28));
            assert(bytes.subrange(c1 + 24, c1 + 28) =~= bytes.skip(c1 + 24).take(4));
        }
        let colors_max_raw = u32::read(stream, protocol)?;
        proof {
            assert(stream.rem() =~= bytes.skip(c1 + 32));
            assert(bytes.subrange(c1 + 28, c1 + 32) =~= bytes.skip(c1 + 28).take(4));
        }
        let speed_raw = u32::read(stream, protocol)?;
        proof {
            assert(stream.rem() =~= bytes.skip(c1 + 36));
            assert(bytes.subrange(c1 + 32, c1 + 36) =~= bytes.skip(c1 + 32).take(4));
        }
        let brightness_raw = u32::read(stream, protocol)?;
        proof {
            assert(stream.rem() =~= bytes.skip(c1 + 40));
            assert(bytes.subrange(c1 + 36, c1 + 40) =~= bytes.skip(c1 + 36).take(4));
        }
        let dir_raw = u32::read(stream, protocol)?;
        proof {
            assert(stream.rem() =~= bytes.skip(c1 + 44));
            assert(bytes.subrange(c1 + 40, c1 + 44) =~= bytes.skip(c1 + 40).take(4));
        }
        let cm_raw = u32::read(stream, protocol)?;
        proof {
            assert(stream.rem() =~= bytes.skip(c1 + 48));
            assert(bytes.subrange(c1 + 44, c1 + 48) =~= bytes.skip(c1 + 44).take(4));
        }
        proof {
            assert(flags.deep_view() == spec_u32_from_le_bytes(bytes.subrange(c1 + 4, c1 + 8)));
            assert(bytes.len() >= c1 + 48);
        }
        let direction: Option<Direction> = if flags.has_direction() {
            match Direction::from_u32(dir_raw) {
                Option::Some(d) => Some(d),
                Option::None => {
                    return Err(OpenRGBError::ProtocolError("invalid direction".to_owned()));
                },
            }
        } else {
            None
        };
        let color_mode = match ColorMode::from_u32(cm_raw) {
            Option::Some(c) => c,
            Option::None => {
                return Err(OpenRGBError::ProtocolError("unknown color mode".to_owned()));
            },
        };
        let count = u16::read(stream, protocol)?;
        proof {
            assert(stream.rem() =~= bytes.skip(c1 + 50));
        }
        let colors = read_elements::<S, Color>(stream, protocol, count)?;
        let ghost c9 = spec_read_seq::<Color>(bytes.skip(c1 + 50), protocol, count as nat)->Ok_0.1;
        proof {
            lemma_read_seq_len::<Color>(bytes.skip(c1 + 50), protocol, count as nat);
            assert(stream.rem() =~= bytes.skip(c1 + 50 + c9));
            assert(colors.deep_view() =~= colors@);
            assert(spec_deep_seq(colors@) =~= colors@);
        }
        let has_speed = flags.contains(ModeFlag::HasSpeed);
        let has_brightness = flags.contains(ModeFlag::HasBrightness);
        let has_specific = flags.contains(ModeFlag::HasModeSpecificColor);
        Ok(Mode {
            name,
            value,
            flags,
            speed_min: if has_speed { Some(speed_min_raw) } else { None },
            speed_max: if has_speed { Some(speed_max_raw) } else { None },
            brightness_min: if has_brightness { Some(brightness_min_raw) } else { None },
            brightness_max: if has_brightness { Some(brightness_max_raw) } else { None },
            colors_min: if has_specific { Some(colors_min_raw) } else { None },
            colors_max: if has_specific { Some(colors_max_raw) } else { None },
            speed: if has_speed { Some(speed_raw) } else { None },
            brightness: if has_brightness { Some(brightness_raw) } else { None },
            direction,
            color_mode: Some(color_mode),
            colors,
        })
    }
}

/// A parsed mode occupies some prefix of its bytes.
pub proof fn lemma_read_mode_len(bytes: Seq<u8>, protocol: u32)
    ensures
        spec_read_mode(bytes, protocol) matches Ok((v, n)) ==> 0 <= n <= bytes.len(),
{
    lemma_read_string_len(bytes);
    if spec_read_string(bytes) is Ok {
        let c1 = spec_read_string(bytes)->Ok_0.1;
        if bytes.len() >= c1 + 50 {
            if u16::spec_read(bytes.skip(c1 + 48), protocol) is Ok {
                let count = u16::spec_read(bytes.skip(c1 + 48), protocol)->Ok_0.0;
                lemma_read_seq_len::<Color>(bytes.skip(c1 + 50), protocol, count as nat);
            }
        }
    }
}

impl OpenRGBCodec for Mode {
    #[verifier::rlimit(100)]
    proof fn round_trip(self, tail: Seq<u8>, protocol: u32) {
        lemma_auto_spec_u16_to_from_le_bytes();
        lemma_auto_spec_u32_to_from_le_bytes();
        let wn = spec_string_wire(self.name@);
        let nl = wn.len() as int;
        let w = self.wire(protocol);
        let b = w + tail;
        let fixed = spec_u32_to_le_bytes(self.value as u32) + spec_u32_to_le_bytes(
            self.flags.deep_view(),
        ) + spec_u32_to_le_bytes(spec_gated(self.speed_min)) + spec_u32_to_le_bytes(
            spec_gated(self.speed_max),
        ) + spec_u32_to_le_bytes(spec_gated(self.brightness_min)) + spec_u32_to_le_bytes(
            spec_gated(self.brightness_max),
        ) + spec_u32_to_le_bytes(spec_gated(self.colors_min)) + spec_u32_to_le_bytes(
            spec_gated(self.colors_max),
        ) + spec_u32_to_le_bytes(spec_gated(self.speed)) + spec_u32_to_le_bytes(
            spec_gated(self.brightness),
        ) + spec_u32_to_le_bytes(spec_gated_direction(self.direction)) + spec_u32_to_le_bytes(
            spec_gated_color_mode(self.color_mode),
        ) + spec_u16_to_le_bytes(self.colors@.len() as u16) + spec_wire_seq(
            self.colors@,
            protocol,
        );
        assert(b =~= wn + (fixed + tail));
        lemma_string_round_trip(self.name@, fixed + tail);
        assert(spec_read_string(b) == Ok::<_, WireError>((self.name@, nl)));
        lemma_wire_seq_color_len(self.colors@, protocol);
        assert(b.len() == nl + 50 + 4 * self.colors@.len() + tail.len());
        assert(b.subrange(nl, nl + 4) =~= spec_u32_to_le_bytes(self.value as u32));
        assert(b.subrange(nl + 4, nl + 8) =~= spec_u32_to_le_bytes(self.flags.deep_view()));
        assert(b.subrange(nl + 8, nl + 12) =~= spec_u32_to_le_bytes(spec_gated(self.speed_min)));
        assert(b.subrange(nl + 12, nl + 16) =~= spec_u32_to_le_bytes(spec_gated(self.speed_max)));
        assert(b.subrange(nl + 16, nl + 20) =~= spec_u32_to_le_bytes(
            spec_gated(self.brightness_min),
        ));
        assert(b.subrange(nl + 20, nl + 24) =~= spec_u32_to_le_bytes(
            spec_gated(self.brightness_max),
        ));
        assert(b.subrange(nl + 24, nl + 28) =~= spec_u32_to_le_bytes(spec_gated(self.colors_min)));
        assert(b.subrange(nl + 28, nl + 32) =~= spec_u32_to_le_bytes(spec_gated(self.colors_max)));
        assert(b.subrange(nl + 32, nl + 36) =~= spec_u32_to_le_bytes(spec_gated(self.speed)));
        assert(b.subrange(nl + 36, nl + 40) =~= spec_u32_to_le_bytes(spec_gated(self.brightness)));
        assert(b.subrange(nl + 40, nl + 44) =~= spec_u32_to_le_bytes(
            spec_gated_direction(self.direction),
        ));
        assert(b.subrange(nl + 44, nl + 48) =~= spec_u32_to_le_bytes(
            spec_gated_color_mode(self.color_mode),
        ));
        assert(b.skip(nl + 48).take(2) =~= spec_u16_to_le_bytes(self.colors@.len() as u16));
        assert(b.skip(nl + 50) =~= spec_wire_seq(self.colors@, protocol) + tail);
        lemma_read_seq_round_trip(self.colors@, tail, protocol);
        assert(spec_deep_seq(self.colors@) =~= self.colors@);
        let x = self.value;
        assert((x as u32) as i32 == x) by (bit_vector);
    }
}

} // verus!
