//! Packed on-disk date stamps.

use vstd::prelude::*;

verus! {

/// A sixteen-bit date relative to the start of 1980: five bits of
/// day, four of month, seven of year.
#[derive(Clone, Copy, PartialEq, Eq, Structural, Debug)]
pub struct Date {
    pub raw: u16,
}

impl Date {
    /// Wraps a raw date stamp.
    pub fn new(raw: u16) -> (d: Date)
        ensures
            d.raw == raw,
    {
        Date { raw }
    }

    /// The day of the month.
    pub fn day(&self) -> (d: u8)
        ensures
            d == self.raw & 0x1f,
    {
        let raw = self.raw;
        proof {
            assert(raw & 0x1fu16 < 256) by (bit_vector);
        }
        (raw & 0x1f) as u8
    }

    /// The month of the year.
    pub fn month(&self) -> (m: u8)
        ensures
            m == (self.raw & 0x1e0) >> 5u16,
    {
        let raw = self.raw;
        proof {
            assert((raw & 0x1e0u16) >> 5u16 < 256) by (bit_vector);
        }
        ((raw & 0x1e0) >> 5) as u8
    }

    /// The calendar year.
    pub fn year(&self) -> (y: u16)
        ensures
            y == ((self.raw & 0xfe00) >> 9u16) + 1980,
    {
        let raw = self.raw;
        proof {
            assert((raw & 0xfe00u16) >> 9u16 <= 127) by (bit_vector);
        }
        ((raw & 0xfe00) >> 9) + 1980
    }
}

} // verus!
