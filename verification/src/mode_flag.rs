//! Mode flags: which parameters a controller mode supports.
use vstd::prelude::*;
use vstd::bytes::{spec_u32_to_le_bytes, spec_u32_from_le_bytes, lemma_auto_spec_u32_to_from_le_bytes};

use crate::OpenRGBCodec;
use crate::OpenRGBError;
use crate::OpenRGBReadable;
use crate::OpenRGBWritable;
use crate::WireError;
use crate::protocol::{OpenRGBReadableSync, OpenRGBWritableSync};

verus! {

/// Every bit a mode flag set may carry.
pub const MODE_FLAG_MASK: u32 = 0x3ff;

/// One capability bit of a controller mode.
#[derive(Debug, Copy, Clone, PartialEq, Eq, Structural)]
pub enum ModeFlag {
    /// Mode has a speed parameter.
    HasSpeed,
    /// Mode has a left/right parameter.
    HasDirectionLR,
    /// Mode has an up/down parameter.
    HasDirectionUD,
    /// Mode has a horizontal/vertical parameter.
    HasDirectionHV,
    /// Mode has a direction parameter: the union of the three axes.
    HasDirection,
    /// Mode has a brightness parameter.
    HasBrightness,
    /// Mode has per-LED colors.
    HasPerLEDColor,
    /// Mode has mode-specific colors.
    HasModeSpecificColor,
    /// Mode has a random color option.
    HasRandomColor,
    /// Mode can be saved manually.
    ManualSave,
    /// Mode saves automatically.
    AutomaticSave,
}

/// The bit (or, for the direction union, bits) a flag stands for.
pub open spec fn spec_mode_flag_bits(f: ModeFlag) -> u32 {
    match f {
        ModeFlag::HasSpeed => 0x1,
        ModeFlag::HasDirectionLR => 0x2,
        ModeFlag::HasDirectionUD => 0x4,
        ModeFlag::HasDirectionHV => 0x8,
        ModeFlag::HasDirection => 0xe,
        ModeFlag::HasBrightness => 0x10,
        ModeFlag::HasPerLEDColor => 0x20,
        ModeFlag::HasModeSpecificColor => 0x40,
        ModeFlag::HasRandomColor => 0x80,
        ModeFlag::ManualSave => 0x100,
        ModeFlag::AutomaticSave => 0x200,
    }
}

/// Whether a raw bitmask is made of known bits only.  The known bits are
/// the ten low ones, so validity is a plain bound.
pub open spec fn spec_flags_valid(bits: u32) -> bool {
    bits <= MODE_FLAG_MASK
}

/// Whether every bit of `f` is set in `bits`.
pub open spec fn spec_flags_contain(bits: u32, f: ModeFlag) -> bool {
    bits & spec_mode_flag_bits(f) == spec_mode_flag_bits(f)
}

/// Whether any of the three direction bits is set: a mode animates in a
/// direction as soon as one axis is available.
pub open spec fn spec_flags_have_direction(bits: u32) -> bool {
    bits & 0xe != 0
}

impl ModeFlag {
    /// The bit or bits this flag stands for.
    pub fn bits(self) -> (r: u32)
        ensures
            r == spec_mode_flag_bits(self),
    {
        match self {
            ModeFlag::HasSpeed => 0x1,
            ModeFlag::HasDirectionLR => 0x2,
            ModeFlag::HasDirectionUD => 0x4,
            ModeFlag::HasDirectionHV => 0x8,
            ModeFlag::HasDirection => 0xe,
            ModeFlag::HasBrightness => 0x10,
            ModeFlag::HasPerLEDColor => 0x20,
            ModeFlag::HasModeSpecificColor => 0x40,
            ModeFlag::HasRandomColor => 0x80,
            ModeFlag::ManualSave => 0x100,
            ModeFlag::AutomaticSave => 0x200,
        }
    }
}

/// A set of mode flags: a 32-bit mask whose every bit is a known one.
/// On the wire the set travels as its mask; decoding validates the mask
/// and rejects, with the raw value, any foreign bit.
#[derive(Debug, Copy, Clone, PartialEq, Eq, Structural)]
pub struct ModeFlags {
    bits: u32,
}

impl ModeFlags {
    #[verifier::type_invariant]
    spec fn inv(self) -> bool {
        spec_flags_valid(self.bits)
    }

    /// The set with no flag in it.
    pub fn empty() -> (r: ModeFlags)
        ensures
            r.deep_view() == 0u32,
    {
        ModeFlags { bits: 0 }
    }

    /// The set holding exactly the given flag.
    pub fn flag(f: ModeFlag) -> (r: ModeFlags)
        ensures
            r.deep_view() == spec_mode_flag_bits(f),
    {
        let bits = f.bits();
        proof {
            assert(spec_mode_flag_bits(f) <= MODE_FLAG_MASK);
        }
        ModeFlags { bits }
    }

    /// Validate a raw mask: accepted exactly when every set bit is a
    /// known one; rejected with the raw value otherwise.
    pub fn new(bits: u32) -> (r: Result<ModeFlags, OpenRGBError>)
        ensures
            r matches Ok(f) ==> f.deep_view() == bits,
            r is Ok <==> spec_flags_valid(bits),
            r matches Err(e) ==> e == OpenRGBError::BadFlags(bits),
    {
        if bits <= MODE_FLAG_MASK {
            Ok(ModeFlags { bits })
        } else {
            Err(OpenRGBError::BadFlags(bits))
        }
    }

    /// The raw mask this set travels as; every such mask is valid.
    pub fn bits(&self) -> (r: u32)
        ensures
            r == self.deep_view(),
            spec_flags_valid(self.deep_view()),
    {
        proof {
            use_type_invariant(&*self);
        }
        self.bits
    }

    /// This set with the given flag added.
    pub fn with(self, f: ModeFlag) -> (r: ModeFlags)
        ensures
            r.deep_view() == self.deep_view() | spec_mode_flag_bits(f),
    {
        proof {
            use_type_invariant(self);
            let b = self.bits;
            let m = spec_mode_flag_bits(f);
            assert(b <= 0x3ffu32 && m <= 0x3ffu32 ==> (b | m) <= 0x3ffu32) by (bit_vector);
            assert(m <= 0x3ffu32);
        }
        ModeFlags { bits: self.bits | f.bits() }
    }

    /// Whether every bit of the given flag is in the set.
    pub fn contains(&self, f: ModeFlag) -> (r: bool)
        ensures
            r == spec_flags_contain(self.deep_view(), f),
    {
        let m = f.bits();
        self.bits & m == m
    }

    /// Whether the set names any direction axis.
    pub fn has_direction(&self) -> (r: bool)
        ensures
            r == spec_flags_have_direction(self.deep_view()),
    {
        self.bits & 0xe != 0
    }
}

impl DeepView for ModeFlags {
    type V = u32;

    closed spec fn deep_view(&self) -> u32 {
        self.bits
    }
}

impl OpenRGBWritable for ModeFlags {
    open spec fn wire(self, protocol: u32) -> Seq<u8> {
        spec_u32_to_le_bytes(self.deep_view())
    }

    open spec fn wf(self, protocol: u32) -> bool {
        spec_flags_valid(self.deep_view())
    }

    proof fn wire_len_bound(self, protocol: u32) {
        lemma_auto_spec_u32_to_from_le_bytes();
    }

    fn size(&self, protocol: u32) -> (n: usize) {
        proof {
            lemma_auto_spec_u32_to_from_le_bytes();
        }
        4
    }

    fn write<S: OpenRGBWritableSync>(self, stream: &mut S, protocol: u32) -> (r: Result<
        (),
        OpenRGBError,
    >) {
        proof {
            use_type_invariant(&self);
        }
        self.bits.write(stream, protocol)
    }
}

impl OpenRGBReadable for ModeFlags {
    proof fn read_len_bound(bytes: Seq<u8>, protocol: u32) {
    }

    open spec fn spec_read(bytes: Seq<u8>, protocol: u32) -> Result<(u32, int), WireError> {
        if bytes.len() < 4 {
            Err(WireError::Truncated)
        } else {
            let raw = spec_u32_from_le_bytes(bytes.take(4));
            if spec_flags_valid(raw) {
                Ok((raw, 4))
            } else {
                Err(WireError::BadFlags(raw))
            }
        }
    }

    fn read<S: OpenRGBReadableSync>(stream: &mut S, protocol: u32) -> (r: Result<
        ModeFlags,
        OpenRGBError,
    >) {
        let v = u32::read(stream, protocol)?;
        ModeFlags::new(v)
    }
}

/// A raw mask decodes exactly when every set bit is a known one; a
/// foreign bit fails the decode, naming the raw value.
pub proof fn lemma_mode_flags_read_validated(bytes: Seq<u8>, protocol: u32)
    ensures
        bytes.len() >= 4 ==> {
            let raw = spec_u32_from_le_bytes(bytes.take(4));
            if spec_flags_valid(raw) {
                ModeFlags::spec_read(bytes, protocol) == Ok::<_, WireError>((raw, 4int))
            } else {
                ModeFlags::spec_read(bytes, protocol) == Err::<(u32, int), _>(
                    WireError::BadFlags(raw),
                )
            }
        },
{
}

impl OpenRGBCodec for ModeFlags {
    proof fn round_trip(self, tail: Seq<u8>, protocol: u32) {
        lemma_auto_spec_u32_to_from_le_bytes();
        assert((self.wire(protocol) + tail).take(4) =~= self.wire(protocol));
        assert((self.wire(protocol) + tail).skip(4) =~= tail);
    }
}

} // verus!
