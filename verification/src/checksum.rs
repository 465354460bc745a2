//! Byte-sum checksums and text checks shared by the table parsers.

use vstd::prelude::*;
use vstd::arithmetic::div_mod::{lemma_add_mod_noop, lemma_small_mod};

verus! {

/// Plain sum of all bytes of a sequence.
pub open spec fn byte_sum(s: Seq<u8>) -> int
    decreases s.len(),
{
    if s.len() == 0 {
        0
    } else {
        byte_sum(s.drop_last()) + s.last()
    }
}

/// A table region checks out when its bytes sum to zero modulo 256.
pub open spec fn checksum_ok(s: Seq<u8>) -> bool {
    byte_sum(s) % 256 == 0
}

pub proof fn lemma_byte_sum_nonneg(s: Seq<u8>)
    ensures
        0 <= byte_sum(s),
    decreases s.len(),
{
    if s.len() > 0 {
        lemma_byte_sum_nonneg(s.drop_last());
    }
}

/// Replacing one byte shifts the sum by exactly the difference.
pub proof fn lemma_byte_sum_update(s: Seq<u8>, i: int, x: u8)
    requires
        0 <= i < s.len(),
    ensures
        byte_sum(s.update(i, x)) == byte_sum(s) - s[i] + x,
    decreases s.len(),
{
    let u = s.update(i, x);
    if i == s.len() - 1 {
        assert(u.drop_last() =~= s.drop_last());
        assert(u.last() == x);
    } else {
        assert(u.drop_last() =~= s.drop_last().update(i, x));
        assert(s.drop_last()[i] == s[i]);
        lemma_byte_sum_update(s.drop_last(), i, x);
        assert(u.last() == s.last());
    }
}

/// Sums the first `len` bytes of a buffer, modulo 256.
pub fn sum_bytes_mod(bytes: &[u8], len: usize) -> (r: u8)
    requires
        len <= bytes@.len(),
    ensures
        r == byte_sum(bytes@.subrange(0, len as int)) % 256,
{
    let mut sum: u8 = 0;
    let mut i: usize = 0;
    while i < len
        invariant
            len <= bytes@.len(),
            0 <= i <= len,
            sum == byte_sum(bytes@.subrange(0, i as int)) % 256,
        decreases len - i,
    {
        let b = *vstd::slice::slice_index_get(bytes, i);
        proof {
            let pre = bytes@.subrange(0, i as int);
            let cur = bytes@.subrange(0, i + 1);
            assert(cur.drop_last() =~= pre);
            assert(cur.last() == bytes@[i as int]);
            lemma_byte_sum_nonneg(pre);
            lemma_add_mod_noop(byte_sum(pre), b as int, 256);
            lemma_small_mod(b as nat, 256);
            lemma_small_mod((((byte_sum(pre) % 256) + b) % 256) as nat, 256);
        }
        sum = (((sum as u16) + (b as u16)) % 256) as u8;
        i = i + 1;
    }
    sum
}

/// Relies on `core::str::from_utf8`: it accepts a byte slice exactly
/// when the bytes are valid UTF-8, the property `vstd::utf8::valid_utf8`
/// spells out.
#[verifier::external_body]
pub(crate) fn utf8_ok(bytes: &[u8]) -> (r: bool)
    ensures
        r == vstd::utf8::valid_utf8(bytes@),
{
    core::str::from_utf8(bytes).is_ok()
}

} // verus!
