//! The atomic 4-byte storage unit of the arena and the equivalence table,
//! together with the half-word pair used by the control-sequence table.
//!
//! A cell is a raw, untagged group of four bytes; callers request the view
//! they need (signed 32-bit integer, two unsigned half-words, or four
//! unsigned quarter-words).  Each view is a little-endian reinterpretation
//! of the same bytes, stated here as spec functions and proved of the
//! accessors.  The float-like glue-ratio view cannot live in verified code;
//! the bytes are public so that the surrounding engine can take that view.

use vstd::prelude::*;
use vstd::arithmetic::div_mod::lemma_fundamental_div_mod;

verus! {

/// A quarter-word, the smallest addressable field of a cell.
pub type QuarterWord = u8;

/// A half-word, the size of a pointer into the arena.
pub type HalfWord = u16;

pub const MIN_QUARTER_WORD: u8 = 0;
pub const MAX_QUARTER_WORD: u8 = 255;
pub const MIN_HALF_WORD: u16 = 0;
pub const MAX_HALF_WORD: u16 = 65535;

/// The little-endian value of two bytes as an unsigned half-word.
pub open spec fn u16_of_le(lo: u8, hi: u8) -> u16 {
    (lo + 256 * hi) as u16
}

/// The little-endian value of four bytes as an unsigned 32-bit quantity.
pub open spec fn u32_of_le(b0: u8, b1: u8, b2: u8, b3: u8) -> u32 {
    (b0 + 256 * b1 + 65536 * b2 + 16777216 * b3) as u32
}

/// The little-endian value of four bytes reinterpreted as a signed 32-bit
/// integer in two's complement.
pub open spec fn i32_of_le(b0: u8, b1: u8, b2: u8, b3: u8) -> int {
    let u = u32_of_le(b0, b1, b2, b3) as int;
    if u < 0x8000_0000 {
        u
    } else {
        u - 0x1_0000_0000
    }
}

/// Splits an unsigned half-word into its two little-endian bytes.
fn le_bytes_of_u16(v: u16) -> (r: (u8, u8))
    ensures
        u16_of_le(r.0, r.1) == v,
{
    proof {
        lemma_fundamental_div_mod(v as int, 256);
    }
    ((v % 256) as u8, (v / 256) as u8)
}

/// Splits an unsigned 32-bit quantity into its four little-endian bytes.
fn le_bytes_of_u32(u: u32) -> (r: (u8, u8, u8, u8))
    ensures
        u32_of_le(r.0, r.1, r.2, r.3) == u,
{
    proof {
        lemma_fundamental_div_mod(u as int, 65536);
    }
    let lo = (u % 65536) as u16;
    let hi = (u / 65536) as u16;
    let (b0, b1) = le_bytes_of_u16(lo);
    let (b2, b3) = le_bytes_of_u16(hi);
    (b0, b1, b2, b3)
}

/// A pair of unsigned half-words stored as four bytes, the shape of a
/// control-sequence table slot.
#[derive(Clone, Copy, PartialEq, Eq, Structural, Debug)]
pub struct TwoHalves {
    pub b0: u8,
    pub b1: u8,
    pub b2: u8,
    pub b3: u8,
}

impl TwoHalves {
    /// The left half-word, bytes 0 and 1.
    pub open spec fn spec_lh(&self) -> u16 {
        u16_of_le(self.b0, self.b1)
    }

    /// The right half-word, bytes 2 and 3.
    pub open spec fn spec_rh(&self) -> u16 {
        u16_of_le(self.b2, self.b3)
    }

    /// A pair with both halves zero.
    pub fn new() -> (r: TwoHalves)
        ensures
            r.spec_lh() == 0,
            r.spec_rh() == 0,
            r == (TwoHalves { b0: 0, b1: 0, b2: 0, b3: 0 }),
    {
        TwoHalves { b0: 0, b1: 0, b2: 0, b3: 0 }
    }

    #[verifier::when_used_as_spec(spec_rh)]
    pub fn rh(&self) -> (r: u16)
        ensures
            r == self.spec_rh(),
    {
        self.b2 as u16 + self.b3 as u16 * 256
    }

    pub fn set_rh(&mut self, value: u16)
        ensures
            final(self).spec_rh() == value,
            final(self).b0 == old(self).b0,
            final(self).b1 == old(self).b1,
    {
        let (lo, hi) = le_bytes_of_u16(value);
        self.b2 = lo;
        self.b3 = hi;
    }

    #[verifier::when_used_as_spec(spec_lh)]
    pub fn lh(&self) -> (r: u16)
        ensures
            r == self.spec_lh(),
    {
        self.b0 as u16 + self.b1 as u16 * 256
    }

    pub fn set_lh(&mut self, value: u16)
        ensures
            final(self).spec_lh() == value,
            final(self).b2 == old(self).b2,
            final(self).b3 == old(self).b3,
    {
        let (lo, hi) = le_bytes_of_u16(value);
        self.b0 = lo;
        self.b1 = hi;
    }

    /// The link half-word used when slots are chained into lists.
    pub fn next(&self) -> (r: u16)
        ensures
            r == self.spec_lh(),
    {
        self.lh()
    }

    pub fn set_next(&mut self, value: u16)
        ensures
            final(self).spec_lh() == value,
            final(self).b2 == old(self).b2,
            final(self).b3 == old(self).b3,
    {
        self.set_lh(value);
    }

    /// The string-table reference of a control-sequence name.
    pub fn text(&mut self) -> (r: u16)
        ensures
            r == old(self).spec_rh(),
            *final(self) == *old(self),
    {
        self.rh()
    }

    pub fn set_text(&mut self, value: u16)
        ensures
            final(self).spec_rh() == value,
            final(self).b0 == old(self).b0,
            final(self).b1 == old(self).b1,
    {
        self.set_rh(value)
    }
}

impl Default for TwoHalves {
    fn default() -> (r: Self)
        ensures
            r == (TwoHalves { b0: 0, b1: 0, b2: 0, b3: 0 }),
    {
        TwoHalves { b0: 0, b1: 0, b2: 0, b3: 0 }
    }
}

/// The four quarter-word view of a memory cell.
#[derive(Clone, Copy, PartialEq, Eq, Structural, Debug)]
pub struct FourQuarters {
    pub b0: u8,
    pub b1: u8,
    pub b2: u8,
    pub b3: u8,
}

/// One cell of the arena and of the equivalence table: four raw bytes with
/// no runtime view tag.
#[derive(Clone, Copy, PartialEq, Eq, Structural, Debug)]
pub struct MemoryWord {
    pub b0: u8,
    pub b1: u8,
    pub b2: u8,
    pub b3: u8,
}

impl MemoryWord {
    /// The signed 32-bit integer view.
    pub open spec fn spec_int(&self) -> int {
        i32_of_le(self.b0, self.b1, self.b2, self.b3)
    }

    /// The first quarter-word of the half-word pair view; in an equivalence
    /// table entry, the type code.
    pub open spec fn spec_hh_b0(&self) -> u8 {
        self.b0
    }

    /// The second quarter-word of the half-word pair view.
    pub open spec fn spec_hh_b1(&self) -> u8 {
        self.b1
    }

    /// The left half-word, which shares its bytes with the two quarter-words.
    pub open spec fn spec_hh_lh(&self) -> u16 {
        u16_of_le(self.b0, self.b1)
    }

    /// The right half-word; in a node's first cell, the link field.
    pub open spec fn spec_hh_rh(&self) -> u16 {
        u16_of_le(self.b2, self.b3)
    }

    /// The all-zero cell, whose every view is zero.
    pub fn new() -> (r: MemoryWord)
        ensures
            r == (MemoryWord { b0: 0, b1: 0, b2: 0, b3: 0 }),
            r.spec_int() == 0,
    {
        MemoryWord { b0: 0, b1: 0, b2: 0, b3: 0 }
    }

    /// A cell holding the given value under the signed integer view.
    pub fn new_i32(value: i32) -> (r: MemoryWord)
        ensures
            r.spec_int() == value,
    {
        let u: u32 = if value >= 0 {
            value as u32
        } else {
            (value - i32::MIN) as u32 + 0x8000_0000
        };
        let (b0, b1, b2, b3) = le_bytes_of_u32(u);
        MemoryWord { b0, b1, b2, b3 }
    }

    /// Reads the cell as a signed 32-bit integer.
    pub fn as_int32(&self) -> (r: i32)
        ensures
            r as int == self.spec_int(),
    {
        let u: u32 = self.b0 as u32 + self.b1 as u32 * 256 + self.b2 as u32 * 65536
            + self.b3 as u32 * 16777216;
        if u < 0x8000_0000 {
            u as i32
        } else {
            i32::MIN + (u - 0x8000_0000) as i32
        }
    }

    /// Reads the cell as a scaled dimension, which is stored exactly as a
    /// signed 32-bit integer.
    pub fn sc(&self) -> (r: i32)
        ensures
            r as int == self.spec_int(),
    {
        self.as_int32()
    }

    #[verifier::when_used_as_spec(spec_hh_b0)]
    pub fn hh_b0(&self) -> (r: u8)
        ensures
            r == self.spec_hh_b0(),
    {
        self.b0
    }

    #[verifier::when_used_as_spec(spec_hh_b1)]
    pub fn hh_b1(&self) -> (r: u8)
        ensures
            r == self.spec_hh_b1(),
    {
        self.b1
    }

    #[verifier::when_used_as_spec(spec_hh_rh)]
    pub fn hh_rh(&self) -> (r: u16)
        ensures
            r == self.spec_hh_rh(),
    {
        self.b2 as u16 + self.b3 as u16 * 256
    }

    pub fn set_hh_rh(&mut self, value: u16)
        ensures
            final(self).spec_hh_rh() == value,
            final(self).b0 == old(self).b0,
            final(self).b1 == old(self).b1,
    {
        let (lo, hi) = le_bytes_of_u16(value);
        self.b2 = lo;
        self.b3 = hi;
    }

    #[verifier::when_used_as_spec(spec_hh_lh)]
    pub fn hh_lh(&self) -> (r: u16)
        ensures
            r == self.spec_hh_lh(),
    {
        self.b0 as u16 + self.b1 as u16 * 256
    }

    pub fn set_hh_lh(&mut self, value: u16)
        ensures
            final(self).spec_hh_lh() == value,
            final(self).b2 == old(self).b2,
            final(self).b3 == old(self).b3,
    {
        let (lo, hi) = le_bytes_of_u16(value);
        self.b0 = lo;
        self.b1 = hi;
    }

    /// Reads the cell as four quarter-words.
    pub fn qqqq(&self) -> (r: FourQuarters)
        ensures
            r == (FourQuarters { b0: self.b0, b1: self.b1, b2: self.b2, b3: self.b3 }),
    {
        FourQuarters { b0: self.b0, b1: self.b1, b2: self.b2, b3: self.b3 }
    }
}

impl Default for MemoryWord {
    fn default() -> (r: Self)
        ensures
            r == (MemoryWord { b0: 0, b1: 0, b2: 0, b3: 0 }),
    {
        MemoryWord { b0: 0, b1: 0, b2: 0, b3: 0 }
    }
}

} // verus!
