//! Small arithmetic utilities shared by the cipher core.

use vstd::prelude::*;

verus! {

/// (a + b) mod 2^32, the truncating addition the confusion function uses.
pub open spec fn spec_add(a: u32, b: u32) -> u32 {
    vstd::wrapping::u32_specs::wrapping_add(a, b)
}

/// (a + b) mod 2^32
pub fn add(a: u32, b: u32) -> (r: u32)
    ensures
        r == spec_add(a, b),
{
    a.wrapping_add(b)
}

/// `x` rotated left by `n % 32` bit positions.
pub open spec fn spec_rol(x: u32, n: u32) -> u32 {
    if n % 32 == 0 {
        x
    } else {
        (x << (n % 32)) | (x >> ((32 - n % 32) as u32))
    }
}

/// rotate left
pub fn rol(x: u32, n: u32) -> (r: u32)
    ensures
        r == spec_rol(x, n),
{
    let m: u32 = n % 32;
    if m == 0 {
        x
    } else {
        (x << m) | (x >> (32 - m))
    }
}

/// 256-bit unsigned integer, kept as two 128-bit halves.
#[derive(Clone, Copy, PartialEq, Eq, Structural, Debug)]
pub struct U256 {
    /// high 128 bits
    pub high: u128,
    /// low 128 bits
    pub low: u128,
}

impl U256 {
    /// The value a `U256` stands for.
    pub open spec fn as_nat(self) -> nat {
        (self.high * 0x1_0000_0000_0000_0000_0000_0000_0000_0000 + self.low) as nat
    }

    /// Create a [`U256`] from two u128
    pub fn new(high: u128, low: u128) -> (r: U256)
        ensures
            r.high == high,
            r.low == low,
    {
        U256 { high, low }
    }

    /// Shift left by `rhs` bit positions; bits shifted past position 255 are
    /// discarded and vacated low positions become zero.
    pub fn shl_assign(&mut self, rhs: usize)
        ensures
            *final(self) == spec_u256_shl(*old(self), rhs as nat),
    {
        if rhs == 0 {
        } else if rhs >= 256 {
            self.high = 0;
            self.low = 0;
        } else if rhs == 128 {
            self.high = self.low;
            self.low = 0;
        } else if rhs > 128 {
            self.high = self.low << ((rhs - 128) as u128);
            self.low = 0;
        } else {
            let new_high: u128 = (self.high << (rhs as u128)) | (self.low >> ((128 - rhs) as u128));
            let new_low: u128 = self.low << (rhs as u128);
            self.high = new_high;
            self.low = new_low;
        }
    }
}

/// The 256-bit left shift, over the two halves.
pub open spec fn spec_u256_shl(v: U256, rhs: nat) -> U256 {
    if rhs == 0 {
        v
    } else if rhs >= 256 {
        U256 { high: 0, low: 0 }
    } else if rhs == 128 {
        U256 { high: v.low, low: 0 }
    } else if rhs > 128 {
        U256 { high: v.low << ((rhs - 128) as u128), low: 0 }
    } else {
        U256 {
            high: (v.high << (rhs as u128)) | (v.low >> ((128 - rhs) as u128)),
            low: v.low << (rhs as u128),
        }
    }
}

/// The big-endian value of a byte sequence.
pub open spec fn spec_load_be(bytes: Seq<u8>) -> nat
    decreases bytes.len(),
{
    if bytes.len() == 0 {
        0
    } else {
        (spec_load_be(bytes.drop_last()) * 256 + bytes.last()) as nat
    }
}

/// The concrete powers of two the byte loaders reason with.
pub(crate) proof fn lemma_pow2_values()
    ensures
        vstd::arithmetic::power2::pow2(8) == 0x100,
        vstd::arithmetic::power2::pow2(24) == 0x100_0000,
        vstd::arithmetic::power2::pow2(32) == 0x1_0000_0000,
        vstd::arithmetic::power2::pow2(56) == 0x100_0000_0000_0000,
        vstd::arithmetic::power2::pow2(64) == 0x1_0000_0000_0000_0000,
        vstd::arithmetic::power2::pow2(120) == 0x100_0000_0000_0000_0000_0000_0000_0000,
        vstd::arithmetic::power2::pow2(128) == 0x1_0000_0000_0000_0000_0000_0000_0000_0000,
{
    vstd::arithmetic::power2::lemma2_to64();
    vstd::arithmetic::power2::lemma2_to64_rest();
    vstd::arithmetic::power2::lemma_pow2_adds(64, 56);
    vstd::arithmetic::power2::lemma_pow2_adds(64, 64);
}

/// A byte sequence loads to a value below 2^(8 * its length).
pub proof fn lemma_load_be_bound(bytes: Seq<u8>)
    ensures
        spec_load_be(bytes) < vstd::arithmetic::power2::pow2(8 * bytes.len()),
    decreases bytes.len(),
{
    if bytes.len() == 0 {
        vstd::arithmetic::power2::lemma2_to64();
    } else {
        lemma_load_be_bound(bytes.drop_last());
        vstd::arithmetic::power2::lemma_pow2_adds(8 * (bytes.len() - 1) as nat, 8);
        lemma_pow2_values();
    }
}

} // verus!
