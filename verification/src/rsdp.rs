//! Root pointer structure: validation and parsing.

use vstd::prelude::*;
use vstd::bytes::{spec_u32_from_le_bytes, spec_u64_from_le_bytes, u32_from_le_bytes, u64_from_le_bytes};
use vstd::slice::{slice_index_get, slice_subrange};
use vstd::utf8::valid_utf8;
use crate::checksum::{byte_sum, checksum_ok, lemma_byte_sum_update, sum_bytes_mod, utf8_ok};
use vstd::arithmetic::div_mod::{lemma_add_mod_noop, lemma_small_mod};

verus! {

/// Why a candidate root pointer was rejected.
#[derive(Clone, Copy, PartialEq, Eq, Structural, Debug)]
pub enum RsdpError {
    NoValidRsdp,
    IncorrectSignature,
    InvalidOemId,
    InvalidChecksum,
}

/// Root pointer structure, parsed from its firmware byte image.  The
/// fields past `rsdt_address` carry data only when `revision > 0`;
/// for a first-revision pointer they are zero.
#[derive(Clone, Copy, PartialEq, Eq, Debug)]
pub struct Rsdp {
    pub signature: [u8; 8],
    pub checksum: u8,
    pub oem_id: [u8; 6],
    pub revision: u8,
    pub rsdt_address: u32,
    pub length: u32,
    pub xsdt_address: u64,
    pub ext_checksum: u8,
}

/// Length of a first-revision root pointer image.
pub const RSDP_V1_LENGTH: usize = 20;

/// Length of an extended root pointer image.
pub const RSDP_V2_LENGTH: usize = 36;

/// The eight signature bytes spell `RSD PTR` followed by a space.
pub open spec fn rsdp_sig_ok(s: Seq<u8>) -> bool {
    s.len() >= 8 && s[0] == 0x52u8 && s[1] == 0x53u8 && s[2] == 0x44u8 && s[3] == 0x20u8 && s[4]
        == 0x50u8 && s[5] == 0x54u8 && s[6] == 0x52u8 && s[7] == 0x20u8
}

/// The six OEM id bytes hold valid text.
pub open spec fn rsdp_oem_ok(s: Seq<u8>) -> bool {
    valid_utf8(s.subrange(9, 15))
}

/// The bytes the checksum runs over: the declared length for an
/// extended pointer, the fixed first-revision length otherwise.
pub open spec fn rsdp_region_len(s: Seq<u8>) -> int {
    if s[15] == 0 {
        RSDP_V1_LENGTH as int
    } else {
        spec_u32_from_le_bytes(s.subrange(20, 24)) as int
    }
}

/// The buffer is large enough for its revision and its declared
/// length stays inside it.
pub open spec fn rsdp_structure_ok(s: Seq<u8>) -> bool {
    s.len() >= RSDP_V1_LENGTH && (s[15] == 0 || (s.len() >= RSDP_V2_LENGTH && RSDP_V2_LENGTH
        <= rsdp_region_len(s) <= s.len()))
}

pub open spec fn rsdp_checksum_ok(s: Seq<u8>) -> bool {
    checksum_ok(s.subrange(0, rsdp_region_len(s)))
}

/// A byte image is a valid root pointer when it is structurally
/// complete, carries the signature, readable OEM text, and a zero
/// checksum over its whole region.
pub open spec fn rsdp_valid(s: Seq<u8>) -> bool {
    rsdp_structure_ok(s) && rsdp_sig_ok(s) && rsdp_oem_ok(s) && rsdp_checksum_ok(s)
}

/// The error an invalid image is rejected with, in validation order:
/// truncation, signature, OEM text, declared length, checksum.
pub open spec fn rsdp_error_of(s: Seq<u8>) -> RsdpError {
    if s.len() < RSDP_V1_LENGTH {
        RsdpError::NoValidRsdp
    } else if !rsdp_sig_ok(s) {
        RsdpError::IncorrectSignature
    } else if !rsdp_oem_ok(s) {
        RsdpError::InvalidOemId
    } else if !rsdp_structure_ok(s) {
        RsdpError::NoValidRsdp
    } else {
        RsdpError::InvalidChecksum
    }
}

impl Rsdp {
    /// Validates a root pointer byte image and parses it: the
    /// signature, the OEM text, the structure bounds and the checksum
    /// are checked in that order, and the typed error of the first
    /// failing check comes back; only a fully valid image yields a
    /// parsed structure.
    pub fn validate(bytes: &[u8]) -> (r: Result<Rsdp, RsdpError>)
        ensures
            r is Ok <==> rsdp_valid(bytes@),
            r matches Err(e) ==> e == rsdp_error_of(bytes@),
            r matches Ok(p) ==> {
                &&& p.signature@ =~= bytes@.subrange(0, 8)
                &&& p.checksum == bytes@[8]
                &&& p.oem_id@ =~= bytes@.subrange(9, 15)
                &&& p.revision == bytes@[15]
                &&& p.rsdt_address == spec_u32_from_le_bytes(bytes@.subrange(16, 20))
                &&& p.revision > 0 ==> {
                    &&& p.length == spec_u32_from_le_bytes(bytes@.subrange(20, 24))
                    &&& p.xsdt_address == spec_u64_from_le_bytes(bytes@.subrange(24, 32))
                    &&& p.ext_checksum == bytes@[32]
                }
                &&& p.revision == 0 ==> p.length == 0 && p.xsdt_address == 0 && p.ext_checksum
                    == 0
            },
    {
        if bytes.len() < RSDP_V1_LENGTH {
            return Err(RsdpError::NoValidRsdp);
        }
        let s0 = *slice_index_get(bytes, 0);
        let s1 = *slice_index_get(bytes, 1);
        let s2 = *slice_index_get(bytes, 2);
        let s3 = *slice_index_get(bytes, 3);
        let s4 = *slice_index_get(bytes, 4);
        let s5 = *slice_index_get(bytes, 5);
        let s6 = *slice_index_get(bytes, 6);
        let s7 = *slice_index_get(bytes, 7);
        if !(s0 == 0x52 && s1 == 0x53 && s2 == 0x44 && s3 == 0x20 && s4 == 0x50 && s5 == 0x54 && s6
            == 0x52 && s7 == 0x20) {
            return Err(RsdpError::IncorrectSignature);
        }
        let oem = slice_subrange(bytes, 9, 15);
        if !utf8_ok(oem) {
            return Err(RsdpError::InvalidOemId);
        }
        let revision = *slice_index_get(bytes, 15);
        let region_len: usize;
        if revision > 0 {
            if bytes.len() < RSDP_V2_LENGTH {
                return Err(RsdpError::NoValidRsdp);
            }
            let l = u32_from_le_bytes(slice_subrange(bytes, 20, 24));
            if l < RSDP_V2_LENGTH as u32 || l as usize > bytes.len() {
                return Err(RsdpError::NoValidRsdp);
            }
            region_len = l as usize;
        } else {
            region_len = RSDP_V1_LENGTH;
        }
        let sum = sum_bytes_mod(bytes, region_len);
        if sum != 0 {
            return Err(RsdpError::InvalidChecksum);
        }
        let signature: [u8; 8] = [s0, s1, s2, s3, s4, s5, s6, s7];
        let mut oem_id: [u8; 6] = [0, 0, 0, 0, 0, 0];
        oem_id[0] = *slice_index_get(bytes, 9);
        oem_id[1] = *slice_index_get(bytes, 10);
        oem_id[2] = *slice_index_get(bytes, 11);
        oem_id[3] = *slice_index_get(bytes, 12);
        oem_id[4] = *slice_index_get(bytes, 13);
        oem_id[5] = *slice_index_get(bytes, 14);
        let rsdt_address = u32_from_le_bytes(slice_subrange(bytes, 16, 20));
        let length: u32 = if revision > 0 {
            u32_from_le_bytes(slice_subrange(bytes, 20, 24))
        } else {
            0
        };
        let xsdt_address: u64 = if revision > 0 {
            u64_from_le_bytes(slice_subrange(bytes, 24, 32))
        } else {
            0
        };
        let ext_checksum: u8 = if revision > 0 {
            *slice_index_get(bytes, 32)
        } else {
            0
        };
        proof {
            assert(bytes@.subrange(0, 8)[0] == bytes@[0]);
        }
        let p = Rsdp {
            signature,
            checksum: *slice_index_get(bytes, 8),
            oem_id,
            revision,
            rsdt_address,
            length,
            xsdt_address,
            ext_checksum,
        };
        proof {
            assert(p.signature@ =~= bytes@.subrange(0, 8));
            assert(p.oem_id@ =~= bytes@.subrange(9, 15));
        }
        Ok(p)
    }
}

/// Corrupting any single byte of the checksummed region fails
/// validation with the checksum error, as long as the flip leaves the
/// signature, the OEM text and the declared region itself intact (a
/// flip inside those fields is caught by their own checks instead).
pub proof fn lemma_rsdp_flip_fails_checksum(s: Seq<u8>, i: int, x: u8)
    requires
        rsdp_valid(s),
        0 <= i < rsdp_region_len(s),
        x != s[i],
        rsdp_sig_ok(s.update(i, x)),
        rsdp_oem_ok(s.update(i, x)),
        rsdp_structure_ok(s.update(i, x)),
        rsdp_region_len(s.update(i, x)) == rsdp_region_len(s),
    ensures
        !rsdp_valid(s.update(i, x)),
        rsdp_error_of(s.update(i, x)) == RsdpError::InvalidChecksum,
{
    let u = s.update(i, x);
    let len = rsdp_region_len(s);
    let region = s.subrange(0, len);
    let region_u = u.subrange(0, len);
    assert(region_u =~= region.update(i, x));
    lemma_byte_sum_update(region, i, x);
    let d = x - s[i];
    assert(region[i] == s[i]);
    assert(byte_sum(region_u) == byte_sum(region) + d);
    assert(-256 < d < 256 && d != 0);
    lemma_add_mod_noop(byte_sum(region), d, 256);
    if d >= 0 {
        lemma_small_mod(d as nat, 256);
    } else {
        assert((d % 256) == d + 256) by {
            assert(-256 < d < 0);
        }
    }
    assert(byte_sum(region_u) % 256 != 0);
    assert(!rsdp_checksum_ok(u));
    assert(u.len() >= RSDP_V1_LENGTH);
}

} // verus!
