//! The ZUC-128 key/IV schedule and keystream generator.

use vstd::prelude::*;

use crate::keystream::KeyStream;
use crate::zuc::spec_init;
use crate::zuc::spec_step;
use crate::zuc::spec_word;
use crate::zuc::Zuc;
use crate::zuc::ZucView;

verus! {

/// Per-register tuning constants of the 16-byte-key schedule, already shifted
/// into bits 22..8 of the register.
pub const D: [u32; 16] = [
    0b_0100_0100_1101_0111_0000_0000,
    0b_0010_0110_1011_1100_0000_0000,
    0b_0110_0010_0110_1011_0000_0000,
    0b_0001_0011_0101_1110_0000_0000,
    0b_0101_0111_1000_1001_0000_0000,
    0b_0011_0101_1110_0010_0000_0000,
    0b_0111_0001_0011_0101_0000_0000,
    0b_0000_1001_1010_1111_0000_0000,
    0b_0100_1101_0111_1000_0000_0000,
    0b_0010_1111_0001_0011_0000_0000,
    0b_0110_1011_1100_0100_0000_0000,
    0b_0001_1010_1111_0001_0000_0000,
    0b_0101_1110_0010_0110_0000_0000,
    0b_0011_1100_0100_1101_0000_0000,
    0b_0111_1000_1001_1010_0000_0000,
    0b_0100_0111_1010_1100_0000_0000,
];

/// Initial register file: register i packs the key byte in bits 30..23, the
/// tuning constant in bits 22..8 and the IV byte in bits 7..0.
pub open spec fn spec_zuc128_load(key: Seq<u8>, iv: Seq<u8>) -> ZucView {
    ZucView {
        s: Seq::new(16, |i: int| D@[i] | ((key[i] as u32) << 23) | (iv[i] as u32)),
        r1: 0,
        r2: 0,
    }
}

/// The engine state right after the ZUC-128 key/IV schedule and warm-up.
pub open spec fn spec_zuc128_init(key: Seq<u8>, iv: Seq<u8>) -> ZucView {
    spec_init(spec_zuc128_load(key, iv))
}

/// A register packed from a tuning constant below 2^23, a key byte and an IV
/// byte stays below 2^31.
proof fn lemma_pack128_bound(d: u32, k: u8, b: u8)
    by (bit_vector)
    requires
        d < 0x80_0000,
    ensures
        (d | ((k as u32) << 23) | (b as u32)) < 0x8000_0000,
{
}

/// ZUC-128 keystream generator core.
pub struct Zuc128Core {
    /// the register engine after warm-up
    pub(crate) zuc: Zuc,
}

impl View for Zuc128Core {
    type V = ZucView;

    closed spec fn view(&self) -> ZucView {
        self.zuc@
    }
}

impl Zuc128Core {
    /// Loads the 16-byte key and 16-byte IV and runs the warm-up.
    pub fn new(key: &[u8; 16], iv: &[u8; 16]) -> (r: Self)
        ensures
            r@ == spec_zuc128_init(key@, iv@),
            r@.wf(),
    {
        let mut s: [u32; 16] = D;
        proof {
            assert(forall|j: int| 0 <= j < 16 ==> D@[j] < 0x80_0000);
        }
        for i in 0..16
            invariant
                s@.len() == 16,
                forall|j: int| 0 <= j < i ==> s@[j] == spec_zuc128_load(key@, iv@).s[j],
                forall|j: int| 0 <= j < i ==> s@[j] < 0x8000_0000,
                forall|j: int| i <= j < 16 ==> s@[j] == D@[j] && s@[j] < 0x80_0000,
        {
            proof {
                lemma_pack128_bound(s@[i as int], key@[i as int], iv@[i as int]);
            }
            s[i] = s[i] | ((key[i] as u32) << 23) | (iv[i] as u32);
        }
        let mut zuc = Zuc { s, r1: 0, r2: 0 };
        proof {
            assert(zuc@.s =~= spec_zuc128_load(key@, iv@).s);
        }
        zuc.init();
        Zuc128Core { zuc }
    }

    /// Generates the next 32-bit word of the ZUC-128 keystream.
    pub fn generate(&mut self) -> (z: u32)
        requires
            old(self)@.wf(),
        ensures
            z == spec_word(old(self)@),
            final(self)@ == spec_step(old(self)@),
            final(self)@.wf(),
    {
        self.zuc.generate()
    }

    /// Hands the warmed-up engine to an owner that drives it directly.
    pub(crate) fn into_inner(self) -> (z: Zuc)
        ensures
            z@ == self@,
    {
        self.zuc
    }
}

impl KeyStream for Zuc128Core {
    open spec fn stream(&self) -> ZucView {
        self@
    }

    fn next_key(&mut self) -> (z: u32) {
        self.generate()
    }
}

} // verus!
