//! Initial data of global variables.

use vstd::prelude::*;

verus! {

/// Byte `k` (from the least significant) of a value.
pub open spec fn byte_of(val: u64, k: int) -> u8 {
    ((val as int / crate::hashmap::pow_two((8 * k) as nat)) % 256) as u8
}

/// The buffer with the `sz` low bytes of `val` written at `offset`, least
/// significant first.
pub open spec fn written(buf: Seq<u8>, offset: int, val: u64, sz: int) -> Seq<u8> {
    Seq::new(
        buf.len(),
        |j: int|
            if offset <= j < offset + sz {
                byte_of(val, j - offset)
            } else {
                buf[j]
            },
    )
}

proof fn lemma_byte_of(val: u64, k: int)
    requires
        0 <= k < 8,
    ensures
        byte_of(val, k) == ((val >> ((8 * k) as u64)) & 0xff) as u8,
{
    reveal_with_fuel(crate::hashmap::pow_two, 57);
    let s = (8 * k) as u64;
    assert(s < 64);
    if k == 0 {
        assert(crate::hashmap::pow_two(0) == 1);
        assert((val >> 0u64) & 0xff == val % 256) by (bit_vector);
    } else if k == 1 {
        assert((val >> 8u64) & 0xff == (val / 256) % 256) by (bit_vector);
    } else if k == 2 {
        assert((val >> 16u64) & 0xff == (val / 0x10000) % 256) by (bit_vector);
    } else if k == 3 {
        assert((val >> 24u64) & 0xff == (val / 0x1000000) % 256) by (bit_vector);
    } else if k == 4 {
        assert((val >> 32u64) & 0xff == (val / 0x100000000) % 256) by (bit_vector);
    } else if k == 5 {
        assert((val >> 40u64) & 0xff == (val / 0x10000000000) % 256) by (bit_vector);
    } else if k == 6 {
        assert((val >> 48u64) & 0xff == (val / 0x1000000000000) % 256) by (bit_vector);
    } else {
        assert((val >> 56u64) & 0xff == (val / 0x100000000000000) % 256) by (bit_vector);
    }
}

/// Writes the `sz` (1, 2, 4 or 8) low bytes of `val` into `buf` at
/// `offset`, least significant first.
pub fn write_buf(buf: &mut Vec<u8>, offset: usize, val: u64, sz: i64)
    requires
        sz == 1 || sz == 2 || sz == 4 || sz == 8,
        offset + sz <= old(buf).len(),
    ensures
        final(buf)@ == written(old(buf)@, offset as int, val, sz as int),
{
    let n = sz as usize;
    let mut k: usize = 0;
    while k < n
        invariant
            n == sz,
            n <= 8,
            k <= n,
            offset + n <= buf.len(),
            buf@.len() == old(buf)@.len(),
            forall|j: int|
                0 <= j < buf@.len() ==> #[trigger] buf@[j] == if offset <= j < offset + k {
                    byte_of(val, j - offset)
                } else {
                    old(buf)@[j]
                },
        decreases n - k,
    {
        proof {
            lemma_byte_of(val, k as int);
        }
        let shift: u64 = (8 * k) as u64;
        let masked: u64 = (val >> shift) & 0xff;
        let b: u8 = #[verifier::truncate] (masked as u8);
        buf.set(offset + k, b);
        k += 1;
    }
    assert(buf@ =~= written(old(buf)@, offset as int, val, sz as int));
}

} // verus!
