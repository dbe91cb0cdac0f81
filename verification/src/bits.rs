//! Bit lengths, and the width of one packed palette index.

use vstd::prelude::*;
use vstd::arithmetic::power2::{
    pow2, lemma_pow2_pos, lemma_pow2_strictly_increases, lemma_pow2_unfold, lemma2_to64,
};
use vstd::bits::lemma_u32_shr_is_div;
use vstd::std_specs::bits::{u32_leading_zeros, u64_leading_zeros, axiom_u32_leading_zeros};

verus! {

/// No palette index is packed into fewer bits than this.
pub const MIN_BITS_PER_BLOCK: u32 = 4;

/// The number of binary digits of `n`; zero counts as one digit.
pub open spec fn bit_length_of(n: nat) -> nat
    decreases n,
{
    if n < 2 {
        1
    } else {
        1 + bit_length_of(n / 2)
    }
}

/// The absolute value of `n`.
pub open spec fn magnitude(n: int) -> nat {
    if n < 0 {
        (-n) as nat
    } else {
        n as nat
    }
}

/// The bits that one palette index takes in the packed stream of a section
/// whose palette has `palette_len` entries: enough for the largest index,
/// and never fewer than four.
pub open spec fn bits_for_palette(palette_len: nat) -> nat {
    let needed = bit_length_of(magnitude(palette_len - 1));
    if needed < 4 {
        4
    } else {
        needed
    }
}

/// A number of `k` digits lies between `2^(k-1)` and `2^k`, and no other
/// `k` fits.
pub proof fn lemma_bit_length_bounds(n: nat, k: nat)
    requires
        k >= 1,
        n > 0,
    ensures
        bit_length_of(n) == k <==> pow2((k - 1) as nat) <= n < pow2(k),
    decreases k,
{
    lemma2_to64();
    lemma_pow2_unfold(k);
    lemma_pow2_pos((k - 1) as nat);
    if k == 1 {
        if n >= 2 {
            assert(bit_length_of(n) == 1 + bit_length_of(n / 2));
        }
    } else {
        lemma_pow2_unfold((k - 1) as nat);
        if n >= 2 {
            lemma_bit_length_bounds(n / 2, (k - 1) as nat);
        }
    }
}

/// The digits of a 64-bit number are the bits that its leading zeros leave.
pub proof fn lemma_bit_length_u64(n: u64)
    requires
        n > 0,
    ensures
        bit_length_of(n as nat) == 64 - u64_leading_zeros(n),
        1 <= bit_length_of(n as nat) <= 64,
    decreases n,
{
    reveal(u64_leading_zeros);
    if n >= 2 {
        lemma_bit_length_u64(n / 2);
    } else {
        assert(u64_leading_zeros(0) == 64);
        assert(n / 2 == 0);
    }
}

/// Zero has one digit, and the digits of any other 32-bit number are the
/// bits that its leading zeros leave: `32 - n.leading_zeros()`.
pub proof fn lemma_bit_length_u32(n: u32)
    ensures
        bit_length_of(0) == 1,
        n > 0 ==> bit_length_of(n as nat) == 32 - u32_leading_zeros(n),
        1 <= bit_length_of(n as nat) <= 32,
{
    if n == 0 {
        return ;
    }
    axiom_u32_leading_zeros(n);
    lemma2_to64();
    let zeros = u32_leading_zeros(n);
    let k = (32 - zeros) as nat;
    let top = (31 - zeros) as u32;
    assert(1 <= k <= 32);
    assert((n >> top) & 1u32 != 0);
    let high = n >> top;
    assert(high >= 1) by (bit_vector)
        requires
            high & 1u32 != 0,
    ;
    lemma_u32_shr_is_div(n, top);
    lemma_pow2_pos(top as nat);
    assert(n >= pow2(top as nat)) by (nonlinear_arith)
        requires
            n as nat / pow2(top as nat) >= 1,
            pow2(top as nat) > 0,
    ;
    if zeros > 0 {
        let above = (32 - zeros) as u32;
        assert(n >> above == 0);
        lemma_u32_shr_is_div(n, above);
        lemma_pow2_pos(above as nat);
        assert(n < pow2(above as nat)) by (nonlinear_arith)
            requires
                n as nat / pow2(above as nat) == 0,
                pow2(above as nat) > 0,
        ;
    }
    lemma_bit_length_bounds(n as nat, k);
}

/// The number of binary digits of a 64-bit number.
pub fn bit_width(n: u64) -> (r: u32)
    ensures
        r == bit_length_of(n as nat),
        1 <= r <= 64,
{
    if n == 0 {
        1
    } else {
        proof {
            lemma_bit_length_u64(n);
        }
        64 - n.leading_zeros()
    }
}

/// The number of binary digits of the absolute value of `n`: 1 for zero,
/// else 32 less the leading zeros of `|n|`.
pub fn bit_length(n: i32) -> (r: u32)
    ensures
        r == bit_length_of(magnitude(n as int)),
        1 <= r <= 32,
{
    let wide: i64 = n as i64;
    let size: u64 = if wide < 0 {
        (-wide) as u64
    } else {
        wide as u64
    };
    proof {
        lemma2_to64();
        if size > 0 {
            lemma_bit_length_bounds(size as nat, bit_length_of(size as nat));
            if bit_length_of(size as nat) > 32 {
                lemma_pow2_strictly_increases(32, (bit_length_of(size as nat) - 1) as nat);
            }
        }
    }
    bit_width(size)
}

/// The bits per palette index for a palette of `palette_len` entries.
pub fn bits_per_block(palette_len: usize) -> (r: u32)
    ensures
        r == bits_for_palette(palette_len as nat),
        4 <= r <= 64,
{
    let largest: u64 = if palette_len == 0 {
        1
    } else {
        (palette_len - 1) as u64
    };
    let needed: u32 = bit_width(largest);
    if needed < MIN_BITS_PER_BLOCK {
        MIN_BITS_PER_BLOCK
    } else {
        needed
    }
}

/// The width for a palette is the bit length of its last index, raised to
/// four where that is less.
pub proof fn lemma_bits_for_palette(palette_len: nat)
    ensures
        bits_for_palette(palette_len) == vstd::math::max(
            bit_length_of(magnitude(palette_len - 1)) as int,
            4,
        ),
        palette_len <= 16 ==> bits_for_palette(palette_len) == 4,
        palette_len > 16 ==> bits_for_palette(palette_len) == bit_length_of(
            (palette_len - 1) as nat,
        ),
{
    lemma2_to64();
    if palette_len >= 2 {
        let last = (palette_len - 1) as nat;
        let k = bit_length_of(last);
        lemma_bit_length_bounds(last, k);
        if palette_len <= 16 {
            if k > 5 {
                lemma_pow2_strictly_increases(4, (k - 1) as nat);
            }
        } else if k < 4 {
            lemma_pow2_strictly_increases(k, 4);
        }
    }
}

} // verus!
