//! Common header of the system description tables.

use vstd::prelude::*;
use vstd::bytes::{spec_u32_from_le_bytes, u32_from_le_bytes};
use vstd::slice::{slice_index_get, slice_subrange};
use vstd::utf8::valid_utf8;
use crate::checksum::{checksum_ok, sum_bytes_mod, utf8_ok};

verus! {

/// Why a system description table was rejected.
#[derive(Clone, Copy, PartialEq, Eq, Structural, Debug)]
pub enum SdtError {
    Truncated,
    InvalidSignature,
    InvalidOemId,
    InvalidTableId,
    InvalidChecksum,
}

/// Common header every system description table starts with.
#[derive(Clone, Copy, PartialEq, Eq, Debug)]
pub struct SdtHeader {
    pub signature: [u8; 4],
    pub length: u32,
    pub revision: u8,
    pub checksum: u8,
    pub oem_id: [u8; 6],
    pub oem_table_id: [u8; 8],
    pub oem_revision: u32,
    pub creator_id: u32,
    pub creator_revision: u32,
}

/// Byte length of the common header.
pub const SDT_HEADER_LENGTH: usize = 36;

/// Declared byte length of the whole table.
pub open spec fn sdt_length(s: Seq<u8>) -> int {
    spec_u32_from_le_bytes(s.subrange(4, 8)) as int
}

pub open spec fn sdt_sig_is(s: Seq<u8>, sig: Seq<u8>) -> bool {
    s.subrange(0, 4) =~= sig
}

pub open spec fn sdt_oem_ok(s: Seq<u8>) -> bool {
    valid_utf8(s.subrange(10, 16))
}

pub open spec fn sdt_table_id_ok(s: Seq<u8>) -> bool {
    valid_utf8(s.subrange(16, 24))
}

/// The buffer holds the whole header and its declared length stays
/// inside the buffer.
pub open spec fn sdt_structure_ok(s: Seq<u8>) -> bool {
    s.len() >= SDT_HEADER_LENGTH && SDT_HEADER_LENGTH <= sdt_length(s) <= s.len()
}

pub open spec fn sdt_checksum_ok(s: Seq<u8>) -> bool {
    checksum_ok(s.subrange(0, sdt_length(s)))
}

/// A table image is valid for an expected signature when it is
/// structurally complete, carries that signature, readable OEM
/// fields, and a zero checksum over its declared length.
pub open spec fn sdt_valid(s: Seq<u8>, sig: Seq<u8>) -> bool {
    sdt_structure_ok(s) && sdt_sig_is(s, sig) && sdt_oem_ok(s) && sdt_table_id_ok(s)
        && sdt_checksum_ok(s)
}

/// The error an invalid image is rejected with, in validation order:
/// truncation, signature, OEM id, OEM table id, declared length,
/// checksum.
pub open spec fn sdt_error_of(s: Seq<u8>, sig: Seq<u8>) -> SdtError {
    if s.len() < SDT_HEADER_LENGTH {
        SdtError::Truncated
    } else if !sdt_sig_is(s, sig) {
        SdtError::InvalidSignature
    } else if !sdt_oem_ok(s) {
        SdtError::InvalidOemId
    } else if !sdt_table_id_ok(s) {
        SdtError::InvalidTableId
    } else if !sdt_structure_ok(s) {
        SdtError::Truncated
    } else {
        SdtError::InvalidChecksum
    }
}

impl SdtHeader {
    /// Validates a table image against the signature expected for the
    /// table kind and parses the header: signature, OEM text fields,
    /// declared length and checksum are checked in that order, and
    /// the typed error of the first failing check comes back.
    pub fn validate(bytes: &[u8], expected: &[u8; 4]) -> (r: Result<SdtHeader, SdtError>)
        ensures
            r is Ok <==> sdt_valid(bytes@, expected@),
            r matches Err(e) ==> e == sdt_error_of(bytes@, expected@),
            r matches Ok(h) ==> {
                &&& h.signature@ =~= bytes@.subrange(0, 4)
                &&& h.length == sdt_length(bytes@)
                &&& h.revision == bytes@[8]
                &&& h.checksum == bytes@[9]
                &&& h.oem_id@ =~= bytes@.subrange(10, 16)
                &&& h.oem_table_id@ =~= bytes@.subrange(16, 24)
                &&& h.oem_revision == spec_u32_from_le_bytes(bytes@.subrange(24, 28))
                &&& h.creator_id == spec_u32_from_le_bytes(bytes@.subrange(28, 32))
                &&& h.creator_revision == spec_u32_from_le_bytes(bytes@.subrange(32, 36))
            },
    {
        if bytes.len() < SDT_HEADER_LENGTH {
            return Err(SdtError::Truncated);
        }
        let g0 = *slice_index_get(bytes, 0);
        let g1 = *slice_index_get(bytes, 1);
        let g2 = *slice_index_get(bytes, 2);
        let g3 = *slice_index_get(bytes, 3);
        if !(g0 == expected[0] && g1 == expected[1] && g2 == expected[2] && g3 == expected[3]) {
            proof {
                assert(!(bytes@.subrange(0, 4) =~= expected@)) by {
                    assert(bytes@.subrange(0, 4)[0] == g0 && expected@[0] == expected@[0]);
                }
            }
            return Err(SdtError::InvalidSignature);
        }
        proof {
            assert(bytes@.subrange(0, 4) =~= expected@);
        }
        if !utf8_ok(slice_subrange(bytes, 10, 16)) {
            return Err(SdtError::InvalidOemId);
        }
        if !utf8_ok(slice_subrange(bytes, 16, 24)) {
            return Err(SdtError::InvalidTableId);
        }
        let length = u32_from_le_bytes(slice_subrange(bytes, 4, 8));
        if length < SDT_HEADER_LENGTH as u32 || length as usize > bytes.len() {
            return Err(SdtError::Truncated);
        }
        let sum = sum_bytes_mod(bytes, length as usize);
        if sum != 0 {
            return Err(SdtError::InvalidChecksum);
        }
        let signature: [u8; 4] = [g0, g1, g2, g3];
        let mut oem_id: [u8; 6] = [0, 0, 0, 0, 0, 0];
        oem_id[0] = *slice_index_get(bytes, 10);
        oem_id[1] = *slice_index_get(bytes, 11);
        oem_id[2] = *slice_index_get(bytes, 12);
        oem_id[3] = *slice_index_get(bytes, 13);
        oem_id[4] = *slice_index_get(bytes, 14);
        oem_id[5] = *slice_index_get(bytes, 15);
        let mut oem_table_id: [u8; 8] = [0, 0, 0, 0, 0, 0, 0, 0];
        oem_table_id[0] = *slice_index_get(bytes, 16);
        oem_table_id[1] = *slice_index_get(bytes, 17);
        oem_table_id[2] = *slice_index_get(bytes, 18);
        oem_table_id[3] = *slice_index_get(bytes, 19);
        oem_table_id[4] = *slice_index_get(bytes, 20);
        oem_table_id[5] = *slice_index_get(bytes, 21);
        oem_table_id[6] = *slice_index_get(bytes, 22);
        oem_table_id[7] = *slice_index_get(bytes, 23);
        let h = SdtHeader {
            signature,
            length,
            revision: *slice_index_get(bytes, 8),
            checksum: *slice_index_get(bytes, 9),
            oem_id,
            oem_table_id,
            oem_revision: u32_from_le_bytes(slice_subrange(bytes, 24, 28)),
            creator_id: u32_from_le_bytes(slice_subrange(bytes, 28, 32)),
            creator_revision: u32_from_le_bytes(slice_subrange(bytes, 32, 36)),
        };
        proof {
            assert(h.signature@ =~= bytes@.subrange(0, 4));
            assert(h.oem_id@ =~= bytes@.subrange(10, 16));
            assert(h.oem_table_id@ =~= bytes@.subrange(16, 24));
        }
        Ok(h)
    }
}

/// Signature of the root table with 32-bit entries.
pub open spec fn rsdt_sig() -> Seq<u8> {
    seq![0x52u8, 0x53u8, 0x44u8, 0x54u8]
}

/// Signature of the root table with 64-bit entries.
pub open spec fn xsdt_sig() -> Seq<u8> {
    seq![0x58u8, 0x53u8, 0x44u8, 0x54u8]
}

/// Signature of the fixed description table.
pub open spec fn fadt_sig() -> Seq<u8> {
    seq![0x46u8, 0x41u8, 0x43u8, 0x50u8]
}

/// Signature of a secondary definition block.
pub open spec fn ssdt_sig() -> Seq<u8> {
    seq![0x53u8, 0x53u8, 0x44u8, 0x54u8]
}

/// Signature of the primary definition block.
pub open spec fn dsdt_sig() -> Seq<u8> {
    seq![0x44u8, 0x53u8, 0x44u8, 0x54u8]
}

pub fn rsdt_signature() -> (s: [u8; 4])
    ensures
        s@ =~= rsdt_sig(),
{
    [0x52, 0x53, 0x44, 0x54]
}

pub fn xsdt_signature() -> (s: [u8; 4])
    ensures
        s@ =~= xsdt_sig(),
{
    [0x58, 0x53, 0x44, 0x54]
}

pub fn fadt_signature() -> (s: [u8; 4])
    ensures
        s@ =~= fadt_sig(),
{
    [0x46, 0x41, 0x43, 0x50]
}

pub fn ssdt_signature() -> (s: [u8; 4])
    ensures
        s@ =~= ssdt_sig(),
{
    [0x53, 0x53, 0x44, 0x54]
}

pub fn dsdt_signature() -> (s: [u8; 4])
    ensures
        s@ =~= dsdt_sig(),
{
    [0x44, 0x53, 0x44, 0x54]
}

} // verus!
