//! Which addresses a block holds.

use super::rules::{in_block, Cidr};
use vstd::arithmetic::power2::{lemma2_to64, lemma_pow2_pos, pow2};
use vstd::bits::lemma_u32_shr_is_div;
use vstd::prelude::*;

verus! {

/// The first address of a block: its address, rounded down to a whole number of blocks of
/// that size.
pub open spec fn first_address(addr: u32, prefix: u8) -> int {
    addr - addr as int % pow2((32 - prefix) as nat) as int
}

/// A block of `prefix` bits holds exactly the `2^(32 - prefix)` addresses from its first
/// one up; a longer prefix than an address has bits holds none.
pub proof fn law_block_is_a_range(addr: u32, prefix: u8, ip: u32)
    ensures
        prefix <= 32 ==> (in_block(Cidr::V4 { addr, prefix }, ip) <==> first_address(addr, prefix)
            <= ip < first_address(addr, prefix) + pow2((32 - prefix) as nat)),
        prefix > 32 ==> !in_block(Cidr::V4 { addr, prefix }, ip),
{
    if prefix <= 32 {
        let shift = (32 - prefix) as u32;
        let size = pow2(shift as nat) as int;
        lemma_pow2_pos(shift as nat);
        lemma2_to64();
        if prefix == 0 {
            assert(addr as int % size == addr as int) by (nonlinear_arith)
                requires
                    0 <= addr < size,
            ;
        } else {
            lemma_u32_shr_is_div(addr, shift);
            lemma_u32_shr_is_div(ip, shift);
            let (a, i) = (addr as int, ip as int);
            assert(a % size == a - size * (a / size)) by (nonlinear_arith)
                requires
                    size > 0,
            ;
            assert(size * (i / size) <= i < size * (i / size) + size) by (nonlinear_arith)
                requires
                    size > 0,
            ;
            let (x, y) = (a / size, i / size);
            if size * x <= i < size * x + size {
                assert(x == y) by (nonlinear_arith)
                    requires
                        size > 0,
                        size * x <= i < size * x + size,
                        size * y <= i < size * y + size,
                ;
            }
        }
    }
}

/// The same, by the length of common prefixes: of two addresses in one block, and of blocks
/// within blocks, the narrower block is within the wider one or apart from it.
pub proof fn law_blocks_nest(addr: u32, narrow: u8, wide: u8, ip: u32)
    requires
        wide <= narrow <= 32,
        in_block(Cidr::V4 { addr, prefix: narrow }, ip),
    ensures
        in_block(Cidr::V4 { addr, prefix: wide }, ip),
{
    if wide > 0 {
        let s = (32 - narrow) as u32;
        let w = (32 - wide) as u32;
        assert(ip >> s == addr >> s && s <= w && w < 32 ==> ip >> w == addr >> w) by (bit_vector);
    }
}

} // verus!
