//! Grid coordinates, the four cardinal directions and direction masks.

use vstd::prelude::*;

verus! {

/// A cell of the grid. `x` grows to the right and `y` grows upwards, so the
/// cell above `(x, y)` is `(x, y + 1)`.
#[derive(Clone, Copy, Debug, PartialEq, Eq, Hash, Structural)]
pub struct Coord {
    pub x: usize,
    pub y: usize,
}

impl Coord {
    /// The cell in column `x` and row `y`.
    pub fn new(x: usize, y: usize) -> (c: Coord)
        ensures
            c == (Coord { x, y }),
    {
        Coord { x, y }
    }

    /// The position one step away from `self` in direction `d`, as a pair of
    /// mathematical integers: it may lie outside every grid.
    pub open spec fn shifted(self, d: Direction) -> (int, int) {
        (self.x + d.dx(), self.y + d.dy())
    }
}

/// One of the four ways to leave a cell.
#[derive(Clone, Copy, Debug, PartialEq, Eq, Hash, Structural)]
pub enum Direction {
    Up,
    Right,
    Down,
    Left,
}

impl Direction {
    /// The change of `x` made by one step in this direction.
    pub open spec fn dx(self) -> int {
        match self {
            Direction::Right => 1,
            Direction::Left => -1,
            _ => 0,
        }
    }

    /// The change of `y` made by one step in this direction.
    pub open spec fn dy(self) -> int {
        match self {
            Direction::Up => 1,
            Direction::Down => -1,
            _ => 0,
        }
    }

    /// The value of this direction's bit in the four-bit encoding of a mask:
    /// up is bit 0, right bit 1, down bit 2 and left bit 3.
    pub open spec fn bit_value(self) -> int {
        match self {
            Direction::Up => 1,
            Direction::Right => 2,
            Direction::Down => 4,
            Direction::Left => 8,
        }
    }

    /// The bit of this direction in the four-bit encoding of a mask.
    pub fn bit(self) -> (b: u8)
        ensures
            b == self.bit_value(),
    {
        match self {
            Direction::Up => 0b0001,
            Direction::Right => 0b0010,
            Direction::Down => 0b0100,
            Direction::Left => 0b1000,
        }
    }
}

/// The set of directions in which a cell may be left.
#[derive(Clone, Copy, Debug, PartialEq, Eq, Hash, Structural)]
pub struct DirectionMask {
    pub up: bool,
    pub right: bool,
    pub down: bool,
    pub left: bool,
}

impl DirectionMask {
    /// Whether the mask lets a runner leave in direction `d`.
    pub open spec fn allows(self, d: Direction) -> bool {
        match d {
            Direction::Up => self.up,
            Direction::Right => self.right,
            Direction::Down => self.down,
            Direction::Left => self.left,
        }
    }

    /// The four-bit encoding of the mask: the sum of the bits of the
    /// directions it allows.
    pub open spec fn bits_value(self) -> int {
        (if self.up { 1int } else { 0 }) + (if self.right { 2int } else { 0 }) + (if self.down {
            4int
        } else {
            0
        }) + (if self.left { 8int } else { 0 })
    }

    /// The mask whose encoding agrees with `bits` in its four low bits.
    pub open spec fn decoded(bits: u8) -> DirectionMask {
        DirectionMask {
            up: bits & 1 != 0,
            right: bits & 2 != 0,
            down: bits & 4 != 0,
            left: bits & 8 != 0,
        }
    }

    /// The mask that allows no direction.
    pub open spec fn blocked() -> DirectionMask {
        DirectionMask { up: false, right: false, down: false, left: false }
    }

    /// The mask that allows every direction.
    pub open spec fn open() -> DirectionMask {
        DirectionMask { up: true, right: true, down: true, left: true }
    }

    /// The mask that allows exactly the directions whose flag is set.
    pub fn from_flags(up: bool, right: bool, down: bool, left: bool) -> (m: DirectionMask)
        ensures
            m == (DirectionMask { up, right, down, left }),
    {
        DirectionMask { up, right, down, left }
    }

    /// The mask that allows no direction: an impassable cell.
    pub fn none() -> (m: DirectionMask)
        ensures
            m == DirectionMask::blocked(),
            m.bits_value() == 0,
    {
        DirectionMask { up: false, right: false, down: false, left: false }
    }

    /// The mask that allows every direction.
    pub fn full() -> (m: DirectionMask)
        ensures
            m == DirectionMask::open(),
            m.bits_value() == 15,
    {
        DirectionMask { up: true, right: true, down: true, left: true }
    }

    /// Whether the mask lets a runner leave in direction `d`.
    pub fn permits(&self, d: Direction) -> (b: bool)
        ensures
            b == self.allows(d),
    {
        match d {
            Direction::Up => self.up,
            Direction::Right => self.right,
            Direction::Down => self.down,
            Direction::Left => self.left,
        }
    }

    /// Whether the mask allows no direction at all.
    pub fn is_blocked(&self) -> (b: bool)
        ensures
            b == (self.bits_value() == 0),
            b == (forall|d: Direction| !self.allows(d)),
    {
        proof {
            if !self.up && !self.right && !self.down && !self.left {
                assert forall|d: Direction| !self.allows(d) by {}
            } else {
                let d = if self.up {
                    Direction::Up
                } else if self.right {
                    Direction::Right
                } else if self.down {
                    Direction::Down
                } else {
                    Direction::Left
                };
                assert(self.allows(d));
            }
        }
        !self.up && !self.right && !self.down && !self.left
    }

    /// The four-bit encoding of the mask.
    pub fn bits(&self) -> (b: u8)
        ensures
            b == self.bits_value(),
            b < 16,
    {
        let mut b: u8 = 0;
        if self.up {
            b = b + 0b0001;
        }
        if self.right {
            b = b + 0b0010;
        }
        if self.down {
            b = b + 0b0100;
        }
        if self.left {
            b = b + 0b1000;
        }
        b
    }

    /// Reads a mask from its encoding; bits above the fourth are ignored.
    pub fn from_bits(bits: u8) -> (m: DirectionMask)
        ensures
            m == DirectionMask::decoded(bits),
            m.bits_value() == bits % 16,
    {
        proof {
            lemma_decoded_bits(bits);
        }
        DirectionMask {
            up: bits & 0b0001 != 0,
            right: bits & 0b0010 != 0,
            down: bits & 0b0100 != 0,
            left: bits & 0b1000 != 0,
        }
    }
}

/// Decoding keeps the four low bits: the decoded mask encodes to `bits` modulo 16.
pub proof fn lemma_decoded_bits(bits: u8)
    ensures
        DirectionMask::decoded(bits).bits_value() == bits % 16,
{
    let b0: u8 = if bits & 1 != 0 { 1 } else { 0 };
    let b1: u8 = if bits & 2 != 0 { 2 } else { 0 };
    let b2: u8 = if bits & 4 != 0 { 4 } else { 0 };
    let b3: u8 = if bits & 8 != 0 { 8 } else { 0 };
    assert(b0 + b1 + b2 + b3 == bits % 16) by (bit_vector)
        requires
            b0 == (if bits & 1 != 0 { 1u8 } else { 0u8 }),
            b1 == (if bits & 2 != 0 { 2u8 } else { 0u8 }),
            b2 == (if bits & 4 != 0 { 4u8 } else { 0u8 }),
            b3 == (if bits & 8 != 0 { 8u8 } else { 0u8 }),
    ;
}

/// Encoding a mask and decoding the result gives the mask back.
pub proof fn lemma_encode_decode(m: DirectionMask)
    ensures
        0 <= m.bits_value() < 16,
        DirectionMask::decoded(m.bits_value() as u8) == m,
{
    let b0: u8 = if m.up { 1 } else { 0 };
    let b1: u8 = if m.right { 2 } else { 0 };
    let b2: u8 = if m.down { 4 } else { 0 };
    let b3: u8 = if m.left { 8 } else { 0 };
    let bits: u8 = (b0 + b1 + b2 + b3) as u8;
    assert(bits == m.bits_value());
    assert((bits & 1 != 0) == (b0 == 1) && (bits & 2 != 0) == (b1 == 2) && (bits & 4 != 0) == (b2
        == 4) && (bits & 8 != 0) == (b3 == 8)) by (bit_vector)
        requires
            b0 == 0 || b0 == 1,
            b1 == 0 || b1 == 2,
            b2 == 0 || b2 == 4,
            b3 == 0 || b3 == 8,
            bits == b0 + b1 + b2 + b3,
    ;
}

} // verus!
