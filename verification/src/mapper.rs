//! Page-table walk decisions: everything of the translation that is
//! not a raw memory read.

use vstd::prelude::*;

verus! {

/// One step of the table walk, decided from a raw table entry.
#[derive(Clone, Copy, PartialEq, Eq, Structural, Debug)]
pub enum TranslateStep {
    /// The entry points at the next table or the final frame.
    Next(u64),
    /// The entry is not present: the address is unmapped.
    NotPresent,
    /// The entry maps a huge page, which this walk does not handle.
    Huge,
}

/// Walks the four-level table structure from the virtual address's
/// index fields; the loader performs the reads between the decisions
/// here.
pub struct Mapper {}

impl Mapper {
    /// The four table indices of a virtual address, from the top
    /// level down: nine bits each, starting above the twelve-bit page
    /// offset.
    pub fn page_table_indexes(addr: u64) -> (r: [u16; 4])
        ensures
            r@ =~= seq![
                ((addr >> 39u64) & 0x1ff) as u16,
                ((addr >> 30u64) & 0x1ff) as u16,
                ((addr >> 21u64) & 0x1ff) as u16,
                ((addr >> 12u64) & 0x1ff) as u16,
            ],
    {
        proof {
            assert((addr >> 39u64) & 0x1ff < 512 && (addr >> 30u64) & 0x1ff < 512 && (addr
                >> 21u64) & 0x1ff < 512 && (addr >> 12u64) & 0x1ff < 512) by (bit_vector);
        }
        let r: [u16; 4] = [
            ((addr >> 39) & 0x1ff) as u16,
            ((addr >> 30) & 0x1ff) as u16,
            ((addr >> 21) & 0x1ff) as u16,
            ((addr >> 12) & 0x1ff) as u16,
        ];
        r
    }

    /// Decides the next step from a raw table entry: absent entries
    /// end the walk unmapped, huge-page entries are refused, and a
    /// present entry yields the physical base it stores.
    pub fn translate_step(entry: u64) -> (r: TranslateStep)
        ensures
            entry & 1 == 0 ==> r == TranslateStep::NotPresent,
            entry & 1 == 1 && entry & 0x80 == 0x80 ==> r == TranslateStep::Huge,
            entry & 1 == 1 && entry & 0x80 == 0 ==> r == TranslateStep::Next(
                entry & 0x000f_ffff_ffff_f000,
            ),
    {
        proof {
            assert(entry & 1u64 == 0 || entry & 1u64 == 1) by (bit_vector);
            assert(entry & 0x80u64 == 0 || entry & 0x80u64 == 0x80) by (bit_vector);
        }
        if entry & 1 == 0 {
            TranslateStep::NotPresent
        } else if entry & 0x80 != 0 {
            TranslateStep::Huge
        } else {
            TranslateStep::Next(entry & 0x000f_ffff_ffff_f000)
        }
    }

    /// The physical address of a byte once the walk found its frame:
    /// the frame base plus the page offset of the virtual address.
    pub fn translate_finish(frame_base: u64, addr: u64) -> (r: u64)
        requires
            frame_base & 0xfff == 0,
        ensures
            r == frame_base + (addr & 0xfff),
    {
        proof {
            let fb = frame_base;
            let a = addr;
            assert(fb & 0xfffu64 == 0 ==> (fb | (a & 0xfffu64)) == fb + (a & 0xfffu64) && fb + (a
                & 0xfffu64) <= u64::MAX) by (bit_vector);
        }
        frame_base | (addr & 0xfff)
    }
}

/// The page range a byte range touches: the page holding its first
/// byte, and how many pages up to the one holding its last byte.
pub fn page_range_inclusive(start: u64, size: u64) -> (r: (u64, u64))
    requires
        size > 0,
        start + size - 1 <= u64::MAX,
    ensures
        r.0 == start / 4096,
        r.1 == (start + size - 1) / 4096 - start / 4096 + 1,
{
    let first = start / 4096;
    let last = (start + (size - 1)) / 4096;
    proof {
        assert(last >= first) by (nonlinear_arith)
            requires
                first == start / 4096,
                last == (start + (size - 1)) / 4096,
                size >= 1,
        ;
    }
    (first, last - first + 1)
}

} // verus!
