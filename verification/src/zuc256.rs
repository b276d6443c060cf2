//! The ZUC-256 key/IV schedule and keystream generator.

use vstd::prelude::*;

use crate::keystream::KeyStream;
use crate::zuc::spec_init;
use crate::zuc::spec_step;
use crate::zuc::spec_word;
use crate::zuc::Zuc;
use crate::zuc::ZucView;

verus! {

/// Tuning constants of the plain (stream-cipher) ZUC-256 schedule.
pub const D: [u8; 16] = [
    0b_0010_0010,
    0b_0010_1111,
    0b_0010_0100,
    0b_0010_1010,
    0b_0110_1101,
    0b_0100_0000,
    0b_0100_0000,
    0b_0100_0000,
    0b_0100_0000,
    0b_0100_0000,
    0b_0100_0000,
    0b_0100_0000,
    0b_0100_0000,
    0b_0101_0010,
    0b_0001_0000,
    0b_0011_0000,
];

/// Four bytes packed into a 31-bit register: bits 30..23, 22..16, 15..8, 7..0.
pub open spec fn spec_concat_bits(a: u8, b: u8, c: u8, d: u8) -> u32 {
    ((a as u32) << 23) | ((b as u32) << 16) | ((c as u32) << 8) | (d as u32)
}

/// Such a packed register always stays below 2^31.
proof fn lemma_concat_bits_bound(a: u8, b: u8, c: u8, d: u8)
    by (bit_vector)
    ensures
        (((a as u32) << 23) | ((b as u32) << 16) | ((c as u32) << 8) | (d as u32)) < 0x8000_0000,
{
}

/// The 23-byte IV extended to 25 groups: 17 eight-bit groups followed by 8
/// six-bit groups carved out of the top or bottom bits of adjacent bytes.
pub open spec fn spec_iv_group(iv: Seq<u8>, n: int) -> u8 {
    if n == 17 {
        iv[17] >> 2
    } else if n == 18 {
        ((iv[17] & 0x3) << 4) | (iv[18] >> 4)
    } else if n == 19 {
        ((iv[18] & 0xf) << 2) | (iv[19] >> 6)
    } else if n == 20 {
        iv[19] & 0x3f
    } else if n == 21 {
        iv[20] >> 2
    } else if n == 22 {
        ((iv[20] & 0x3) << 4) | (iv[21] >> 4)
    } else if n == 23 {
        ((iv[21] & 0xf) << 2) | (iv[22] >> 6)
    } else {
        iv[22] & 0x3f
    }
}

/// Initial register file of the 32-byte-key schedule: each register combines
/// four source bytes, with the six-bit IV groups OR'd into the tuning bytes.
pub open spec fn spec_zuc256_load(k: Seq<u8>, iv: Seq<u8>, d: Seq<u8>) -> ZucView {
    ZucView {
        s: seq![
            spec_concat_bits(k[0], d[0], k[21], k[16]),
            spec_concat_bits(k[1], d[1], k[22], k[17]),
            spec_concat_bits(k[2], d[2], k[23], k[18]),
            spec_concat_bits(k[3], d[3], k[24], k[19]),
            spec_concat_bits(k[4], d[4], k[25], k[20]),
            spec_concat_bits(iv[0], d[5] | spec_iv_group(iv, 17), k[5], k[26]),
            spec_concat_bits(iv[1], d[6] | spec_iv_group(iv, 18), k[6], k[27]),
            spec_concat_bits(iv[10], d[7] | spec_iv_group(iv, 19), k[7], iv[2]),
            spec_concat_bits(k[8], d[8] | spec_iv_group(iv, 20), iv[3], iv[11]),
            spec_concat_bits(k[9], d[9] | spec_iv_group(iv, 21), iv[12], iv[4]),
            spec_concat_bits(iv[5], d[10] | spec_iv_group(iv, 22), k[10], k[28]),
            spec_concat_bits(k[11], d[11] | spec_iv_group(iv, 23), iv[6], iv[13]),
            spec_concat_bits(k[12], d[12] | spec_iv_group(iv, 24), iv[7], iv[14]),
            spec_concat_bits(k[13], d[13], iv[15], iv[8]),
            spec_concat_bits(k[14], d[14] | (k[31] >> 4), iv[16], iv[9]),
            spec_concat_bits(k[15], d[15] | (k[31] & 0b_1111), k[30], k[29]),
        ],
        r1: 0,
        r2: 0,
    }
}

/// The engine state right after the ZUC-256 schedule and warm-up.
pub open spec fn spec_zuc256_init(k: Seq<u8>, iv: Seq<u8>, d: Seq<u8>) -> ZucView {
    spec_init(spec_zuc256_load(k, iv, d))
}

/// concat u8 bits to 31bit u32
fn concat_bits(a: u8, b: u8, c: u8, d: u8) -> (r: u32)
    ensures
        r == spec_concat_bits(a, b, c, d),
        r < 0x8000_0000,
{
    proof {
        lemma_concat_bits_bound(a, b, c, d);
    }
    ((a as u32) << 23) | ((b as u32) << 16) | ((c as u32) << 8) | (d as u32)
}

/// ZUC-256 keystream generator.
pub struct Zuc256Keystream {
    /// the register engine after warm-up
    pub(crate) zuc: Zuc,
}

impl View for Zuc256Keystream {
    type V = ZucView;

    closed spec fn view(&self) -> ZucView {
        self.zuc@
    }
}

impl Zuc256Keystream {
    /// Loads the 32-byte key and 23-byte IV with the plain tuning constants
    /// and runs the warm-up.
    pub fn new(k: &[u8; 32], iv: &[u8; 23]) -> (r: Self)
        ensures
            r@ == spec_zuc256_init(k@, iv@, D@),
            r@.wf(),
    {
        Zuc256Keystream::new_with_d(k, iv, &D)
    }

    /// Loads the key and IV with the given tuning constants and runs the
    /// warm-up.
    pub(crate) fn new_with_d(k: &[u8; 32], iv: &[u8; 23], d: &[u8; 16]) -> (r: Self)
        ensures
            r@ == spec_zuc256_init(k@, iv@, d@),
            r@.wf(),
    {
        let iv17: u8 = iv[17] >> 2;
        let iv18: u8 = ((iv[17] & 0x3) << 4) | (iv[18] >> 4);
        let iv19: u8 = ((iv[18] & 0xf) << 2) | (iv[19] >> 6);
        let iv20: u8 = iv[19] & 0x3f;
        let iv21: u8 = iv[20] >> 2;
        let iv22: u8 = ((iv[20] & 0x3) << 4) | (iv[21] >> 4);
        let iv23: u8 = ((iv[21] & 0xf) << 2) | (iv[22] >> 6);
        let iv24: u8 = iv[22] & 0x3f;

        let mut s: [u32; 16] = [0; 16];
        s[0] = concat_bits(k[0], d[0], k[21], k[16]);
        s[1] = concat_bits(k[1], d[1], k[22], k[17]);
        s[2] = concat_bits(k[2], d[2], k[23], k[18]);
        s[3] = concat_bits(k[3], d[3], k[24], k[19]);
        s[4] = concat_bits(k[4], d[4], k[25], k[20]);
        s[5] = concat_bits(iv[0], d[5] | iv17, k[5], k[26]);
        s[6] = concat_bits(iv[1], d[6] | iv18, k[6], k[27]);
        s[7] = concat_bits(iv[10], d[7] | iv19, k[7], iv[2]);
        s[8] = concat_bits(k[8], d[8] | iv20, iv[3], iv[11]);
        s[9] = concat_bits(k[9], d[9] | iv21, iv[12], iv[4]);
        s[10] = concat_bits(iv[5], d[10] | iv22, k[10], k[28]);
        s[11] = concat_bits(k[11], d[11] | iv23, iv[6], iv[13]);
        s[12] = concat_bits(k[12], d[12] | iv24, iv[7], iv[14]);
        s[13] = concat_bits(k[13], d[13], iv[15], iv[8]);
        s[14] = concat_bits(k[14], d[14] | (k[31] >> 4), iv[16], iv[9]);
        s[15] = concat_bits(k[15], d[15] | (k[31] & 0b_1111), k[30], k[29]);

        let mut zuc = Zuc { s, r1: 0, r2: 0 };
        proof {
            assert(zuc@.s =~= spec_zuc256_load(k@, iv@, d@).s);
        }
        zuc.init();
        Zuc256Keystream { zuc }
    }

    /// Generates the next 32-bit word of the ZUC-256 keystream.
    pub fn generate(&mut self) -> (z: u32)
        requires
            old(self)@.wf(),
        ensures
            z == spec_word(old(self)@),
            final(self)@ == spec_step(old(self)@),
            final(self)@.wf(),
    {
        self.zuc.generate()
    }
}

impl Zuc256Keystream {
    /// Hands the warmed-up engine to an owner that drives it directly.
    pub(crate) fn into_inner(self) -> (z: Zuc)
        ensures
            z@ == self@,
    {
        self.zuc
    }
}

impl KeyStream for Zuc256Keystream {
    open spec fn stream(&self) -> ZucView {
        self@
    }

    fn next_key(&mut self) -> (z: u32) {
        self.generate()
    }
}

} // verus!
