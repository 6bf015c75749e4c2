//! Animation direction of a controller mode.
use vstd::prelude::*;
use vstd::bytes::{spec_u32_to_le_bytes, spec_u32_from_le_bytes, lemma_auto_spec_u32_to_from_le_bytes};

use crate::OpenRGBCodec;
use crate::OpenRGBError;
use crate::OpenRGBReadable;
use crate::OpenRGBWritable;
use crate::WireError;
use crate::protocol::{OpenRGBReadableSync, OpenRGBWritableSync};

verus! {

/// Direction of a mode's animation.  Decoding is strict: a discriminant
/// outside the six named values is a protocol error.
#[derive(Debug, Copy, Clone, PartialEq, Eq, Structural)]
pub enum Direction {
    /// Left direction.
    Left,
    /// Right direction.
    Right,
    /// Up direction.
    Up,
    /// Down direction.
    Down,
    /// Horizontal direction.
    Horizontal,
    /// Vertical direction.
    Vertical,
}

/// Discriminant of a direction on the wire.
pub open spec fn spec_direction_code(m: Direction) -> u32 {
    match m {
        Direction::Left => 0,
        Direction::Right => 1,
        Direction::Up => 2,
        Direction::Down => 3,
        Direction::Horizontal => 4,
        Direction::Vertical => 5,
    }
}

/// The direction a discriminant names, if any.
pub open spec fn spec_direction_from(v: u32) -> Option<Direction> {
    if v == 0 {
        Some(Direction::Left)
    } else if v == 1 {
        Some(Direction::Right)
    } else if v == 2 {
        Some(Direction::Up)
    } else if v == 3 {
        Some(Direction::Down)
    } else if v == 4 {
        Some(Direction::Horizontal)
    } else if v == 5 {
        Some(Direction::Vertical)
    } else {
        None
    }
}

impl Direction {
    /// The discriminant this direction travels as.
    pub fn to_u32(self) -> (r: u32)
        ensures
            r == spec_direction_code(self),
    {
        match self {
        Direction::Left => 0,
        Direction::Right => 1,
        Direction::Up => 2,
        Direction::Down => 3,
        Direction::Horizontal => 4,
        Direction::Vertical => 5,
        }
    }

    /// The direction a discriminant names, if any.
    pub fn from_u32(v: u32) -> (r: Option<Direction>)
        ensures
            r == spec_direction_from(v),
    {
        if v == 0 {
            Some(Direction::Left)
        } else if v == 1 {
            Some(Direction::Right)
        } else if v == 2 {
            Some(Direction::Up)
        } else if v == 3 {
            Some(Direction::Down)
        } else if v == 4 {
            Some(Direction::Horizontal)
        } else if v == 5 {
            Some(Direction::Vertical)
        } else {
            None
        }
    }
}

impl Default for Direction {
    /// The default direction is left.
    fn default() -> (r: Self)
        ensures
            r == Direction::Left,
    {
        Direction::Left
    }
}

impl DeepView for Direction {
    type V = Direction;

    open spec fn deep_view(&self) -> Direction {
        *self
    }
}

impl OpenRGBWritable for Direction {
    open spec fn wire(self, protocol: u32) -> Seq<u8> {
        spec_u32_to_le_bytes(spec_direction_code(self))
    }

    open spec fn wf(self, protocol: u32) -> bool {
        true
    }

    proof fn wire_len_bound(self, protocol: u32) {
        lemma_auto_spec_u32_to_from_le_bytes();
    }

    fn size(&self, protocol: u32) -> (n: usize) {
        proof {
            lemma_auto_spec_u32_to_from_le_bytes();
        }
        4
    }

    fn write<S: OpenRGBWritableSync>(self, stream: &mut S, protocol: u32) -> (r: Result<
        (),
        OpenRGBError,
    >) {
        self.to_u32().write(stream, protocol)
    }
}

impl OpenRGBReadable for Direction {
    proof fn read_len_bound(bytes: Seq<u8>, protocol: u32) {
    }

    open spec fn spec_read(bytes: Seq<u8>, protocol: u32) -> Result<(Direction, int), WireError> {
        if bytes.len() < 4 {
            Err(WireError::Truncated)
        } else {
            match spec_direction_from(spec_u32_from_le_bytes(bytes.take(4))) {
                Some(m) => Ok((m, 4)),
                None => Err(WireError::BadValue),
            }
        }
    }

    fn read<S: OpenRGBReadableSync>(stream: &mut S, protocol: u32) -> (r: Result<
        Direction,
        OpenRGBError,
    >) {
        let v = u32::read(stream, protocol)?;
        match Direction::from_u32(v) {
            Some(m) => Ok(m),
            None => Err(OpenRGBError::ProtocolError("invalid direction".to_owned())),
        }
    }
}

impl OpenRGBCodec for Direction {
    proof fn round_trip(self, tail: Seq<u8>, protocol: u32) {
        lemma_auto_spec_u32_to_from_le_bytes();
        assert((self.wire(protocol) + tail).take(4) =~= self.wire(protocol));
        assert((self.wire(protocol) + tail).skip(4) =~= tail);
    }
}

} // verus!
