//! Byte sums and little-endian integer reads over raw table memory.

use vstd::prelude::*;

verus! {

/// The sum of all bytes of `s`, as a natural number.
pub open spec fn byte_sum(s: Seq<u8>) -> nat
    decreases s.len(),
{
    if s.len() == 0 {
        0
    } else {
        byte_sum(s.drop_last()) + s.last() as nat
    }
}

/// The first `n` bytes of `s` add up to zero modulo 256.
pub open spec fn sums_to_zero(s: Seq<u8>, n: int) -> bool {
    byte_sum(s.subrange(0, n)) % 256 == 0
}

/// The little-endian 32-bit value stored at `at`.
pub open spec fn le_u32(s: Seq<u8>, at: int) -> nat {
    s[at] as nat + 0x100 * s[at + 1] as nat + 0x1_0000 * s[at + 2] as nat + 0x100_0000
        * s[at + 3] as nat
}

/// The little-endian 64-bit value stored at `at`.
pub open spec fn le_u64(s: Seq<u8>, at: int) -> nat {
    le_u32(s, at) + 0x1_0000_0000 * le_u32(s, at + 4)
}

/// Extending a prefix by one byte adds that byte to its sum.
pub proof fn lemma_byte_sum_step(s: Seq<u8>, n: int)
    requires
        0 <= n < s.len(),
    ensures
        byte_sum(s.subrange(0, n + 1)) == byte_sum(s.subrange(0, n)) + s[n] as nat,
{
    assert(s.subrange(0, n + 1).drop_last() =~= s.subrange(0, n));
}

/// Replacing the byte at `i` by `v` changes the sum of every prefix that covers `i`
/// by exactly the difference of the two bytes.
pub proof fn lemma_byte_sum_update(s: Seq<u8>, i: int, v: u8, n: int)
    requires
        0 <= i < n <= s.len(),
    ensures
        byte_sum(s.update(i, v).subrange(0, n)) + s[i] as nat == byte_sum(s.subrange(0, n))
            + v as nat,
    decreases n,
{
    let t = s.update(i, v);
    lemma_byte_sum_step(s, n - 1);
    lemma_byte_sum_step(t, n - 1);
    if i < n - 1 {
        lemma_byte_sum_update(s, i, v, n - 1);
    } else {
        assert(t.subrange(0, n - 1) =~= s.subrange(0, n - 1));
    }
}

/// The sum modulo 256 of the first `n` bytes, as a table checksum is computed.
pub fn checksum_of(b: &[u8], n: usize) -> (r: u8)
    requires
        n <= b@.len(),
    ensures
        r as nat == byte_sum(b@.subrange(0, n as int)) % 256,
{
    let mut acc: u8 = 0;
    let mut i: usize = 0;
    while i < n
        invariant
            i <= n <= b@.len(),
            acc as nat == byte_sum(b@.subrange(0, i as int)) % 256,
        decreases n - i,
    {
        proof {
            lemma_byte_sum_step(b@, i as int);
            vstd::arithmetic::div_mod::lemma_add_mod_noop(
                byte_sum(b@.subrange(0, i as int)) as int,
                b@[i as int] as int,
                256,
            );
        }
        acc = ((acc as u16 + b[i] as u16) % 256) as u8;
        i = i + 1;
    }
    acc
}

/// Reads the little-endian 32-bit value at `at`.
pub fn read_u32(b: &[u8], at: usize) -> (r: u32)
    requires
        at + 4 <= b@.len(),
    ensures
        r as nat == le_u32(b@, at as int),
{
    b[at] as u32 + 0x100 * (b[at + 1] as u32) + 0x1_0000 * (b[at + 2] as u32) + 0x100_0000 * (
    b[at + 3] as u32)
}

/// Reads the little-endian 64-bit value at `at`.
pub fn read_u64(b: &[u8], at: usize) -> (r: u64)
    requires
        at + 8 <= b@.len(),
    ensures
        r as nat == le_u64(b@, at as int),
{
    proof {
        assert(b@.len() == b.len());
    }
    let lo = read_u32(b, at);
    let hi = read_u32(b, at + 4);
    lo as u64 + 0x1_0000_0000 * (hi as u64)
}

} // verus!
