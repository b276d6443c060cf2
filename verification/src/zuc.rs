//! The ZUC register engine: a 16-slot file of 31-bit linear-feedback
//! registers plus two 32-bit nonlinear memory cells, producing one 32-bit
//! keystream word per step.

use vstd::prelude::*;

use crate::utils::lemma_load_be_bound;
use crate::utils::lemma_pow2_values;
use crate::utils::spec_load_be;
use crate::utils::rol;
use crate::utils::spec_add;
use crate::utils::spec_rol;

verus! {

/// S0 box
pub const S0: [u8; 256] = [
    0x3E, 0x72, 0x5B, 0x47, 0xCA, 0xE0, 0x00, 0x33, 0x04, 0xD1, 0x54, 0x98, 0x09, 0xB9, 0x6D, 0xCB,
    0x7B, 0x1B, 0xF9, 0x32, 0xAF, 0x9D, 0x6A, 0xA5, 0xB8, 0x2D, 0xFC, 0x1D, 0x08, 0x53, 0x03, 0x90,
    0x4D, 0x4E, 0x84, 0x99, 0xE4, 0xCE, 0xD9, 0x91, 0xDD, 0xB6, 0x85, 0x48, 0x8B, 0x29, 0x6E, 0xAC,
    0xCD, 0xC1, 0xF8, 0x1E, 0x73, 0x43, 0x69, 0xC6, 0xB5, 0xBD, 0xFD, 0x39, 0x63, 0x20, 0xD4, 0x38,
    0x76, 0x7D, 0xB2, 0xA7, 0xCF, 0xED, 0x57, 0xC5, 0xF3, 0x2C, 0xBB, 0x14, 0x21, 0x06, 0x55, 0x9B,
    0xE3, 0xEF, 0x5E, 0x31, 0x4F, 0x7F, 0x5A, 0xA4, 0x0D, 0x82, 0x51, 0x49, 0x5F, 0xBA, 0x58, 0x1C,
    0x4A, 0x16, 0xD5, 0x17, 0xA8, 0x92, 0x24, 0x1F, 0x8C, 0xFF, 0xD8, 0xAE, 0x2E, 0x01, 0xD3, 0xAD,
    0x3B, 0x4B, 0xDA, 0x46, 0xEB, 0xC9, 0xDE, 0x9A, 0x8F, 0x87, 0xD7, 0x3A, 0x80, 0x6F, 0x2F, 0xC8,
    0xB1, 0xB4, 0x37, 0xF7, 0x0A, 0x22, 0x13, 0x28, 0x7C, 0xCC, 0x3C, 0x89, 0xC7, 0xC3, 0x96, 0x56,
    0x07, 0xBF, 0x7E, 0xF0, 0x0B, 0x2B, 0x97, 0x52, 0x35, 0x41, 0x79, 0x61, 0xA6, 0x4C, 0x10, 0xFE,
    0xBC, 0x26, 0x95, 0x88, 0x8A, 0xB0, 0xA3, 0xFB, 0xC0, 0x18, 0x94, 0xF2, 0xE1, 0xE5, 0xE9, 0x5D,
    0xD0, 0xDC, 0x11, 0x66, 0x64, 0x5C, 0xEC, 0x59, 0x42, 0x75, 0x12, 0xF5, 0x74, 0x9C, 0xAA, 0x23,
    0x0E, 0x86, 0xAB, 0xBE, 0x2A, 0x02, 0xE7, 0x67, 0xE6, 0x44, 0xA2, 0x6C, 0xC2, 0x93, 0x9F, 0xF1,
    0xF6, 0xFA, 0x36, 0xD2, 0x50, 0x68, 0x9E, 0x62, 0x71, 0x15, 0x3D, 0xD6, 0x40, 0xC4, 0xE2, 0x0F,
    0x8E, 0x83, 0x77, 0x6B, 0x25, 0x05, 0x3F, 0x0C, 0x30, 0xEA, 0x70, 0xB7, 0xA1, 0xE8, 0xA9, 0x65,
    0x8D, 0x27, 0x1A, 0xDB, 0x81, 0xB3, 0xA0, 0xF4, 0x45, 0x7A, 0x19, 0xDF, 0xEE, 0x78, 0x34, 0x60,
];

/// S1 box
pub const S1: [u8; 256] = [
    0x55, 0xC2, 0x63, 0x71, 0x3B, 0xC8, 0x47, 0x86, 0x9F, 0x3C, 0xDA, 0x5B, 0x29, 0xAA, 0xFD, 0x77,
    0x8C, 0xC5, 0x94, 0x0C, 0xA6, 0x1A, 0x13, 0x00, 0xE3, 0xA8, 0x16, 0x72, 0x40, 0xF9, 0xF8, 0x42,
    0x44, 0x26, 0x68, 0x96, 0x81, 0xD9, 0x45, 0x3E, 0x10, 0x76, 0xC6, 0xA7, 0x8B, 0x39, 0x43, 0xE1,
    0x3A, 0xB5, 0x56, 0x2A, 0xC0, 0x6D, 0xB3, 0x05, 0x22, 0x66, 0xBF, 0xDC, 0x0B, 0xFA, 0x62, 0x48,
    0xDD, 0x20, 0x11, 0x06, 0x36, 0xC9, 0xC1, 0xCF, 0xF6, 0x27, 0x52, 0xBB, 0x69, 0xF5, 0xD4, 0x87,
    0x7F, 0x84, 0x4C, 0xD2, 0x9C, 0x57, 0xA4, 0xBC, 0x4F, 0x9A, 0xDF, 0xFE, 0xD6, 0x8D, 0x7A, 0xEB,
    0x2B, 0x53, 0xD8, 0x5C, 0xA1, 0x14, 0x17, 0xFB, 0x23, 0xD5, 0x7D, 0x30, 0x67, 0x73, 0x08, 0x09,
    0xEE, 0xB7, 0x70, 0x3F, 0x61, 0xB2, 0x19, 0x8E, 0x4E, 0xE5, 0x4B, 0x93, 0x8F, 0x5D, 0xDB, 0xA9,
    0xAD, 0xF1, 0xAE, 0x2E, 0xCB, 0x0D, 0xFC, 0xF4, 0x2D, 0x46, 0x6E, 0x1D, 0x97, 0xE8, 0xD1, 0xE9,
    0x4D, 0x37, 0xA5, 0x75, 0x5E, 0x83, 0x9E, 0xAB, 0x82, 0x9D, 0xB9, 0x1C, 0xE0, 0xCD, 0x49, 0x89,
    0x01, 0xB6, 0xBD, 0x58, 0x24, 0xA2, 0x5F, 0x38, 0x78, 0x99, 0x15, 0x90, 0x50, 0xB8, 0x95, 0xE4,
    0xD0, 0x91, 0xC7, 0xCE, 0xED, 0x0F, 0xB4, 0x6F, 0xA0, 0xCC, 0xF0, 0x02, 0x4A, 0x79, 0xC3, 0xDE,
    0xA3, 0xEF, 0xEA, 0x51, 0xE6, 0x6B, 0x18, 0xEC, 0x1B, 0x2C, 0x80, 0xF7, 0x74, 0xE7, 0xFF, 0x21,
    0x5A, 0x6A, 0x54, 0x1E, 0x41, 0x31, 0x92, 0x35, 0xC4, 0x33, 0x07, 0x0A, 0xBA, 0x7E, 0x0E, 0x34,
    0x88, 0xB1, 0x98, 0x7C, 0xF3, 0x3D, 0x60, 0x6C, 0x7B, 0xCA, 0xD3, 0x1F, 0x32, 0x65, 0x04, 0x28,
    0x64, 0xBE, 0x85, 0x9B, 0x2F, 0x59, 0x8A, 0xD7, 0xB0, 0x25, 0xAC, 0xAF, 0x12, 0x03, 0xE2, 0xF2,
];

/// The abstract state of the register engine: the 16 register values and the
/// two nonlinear memory cells.
pub struct ZucView {
    /// LFSR registers (31-bit words x16)
    pub s: Seq<u32>,
    /// R1 state unit (32 bits)
    pub r1: u32,
    /// R2 state unit (32 bits)
    pub r2: u32,
}

impl ZucView {
    /// Well-formed: 16 registers, each strictly below 2^31.
    pub open spec fn wf(self) -> bool {
        &&& self.s.len() == 16
        &&& forall|i: int| 0 <= i < 16 ==> self.s[i] < 0x8000_0000
    }
}

/// First substitution table, as a function of one byte.
pub open spec fn spec_s0(b: u8) -> u8 {
    S0@[b as int]
}

/// Second substitution table, as a function of one byte.
pub open spec fn spec_s1(b: u8) -> u8 {
    S1@[b as int]
}

/// L1 linear transform.
pub open spec fn spec_l1(x: u32) -> u32 {
    x ^ spec_rol(x, 2) ^ spec_rol(x, 10) ^ spec_rol(x, 18) ^ spec_rol(x, 24)
}

/// L2 linear transform.
pub open spec fn spec_l2(x: u32) -> u32 {
    x ^ spec_rol(x, 8) ^ spec_rol(x, 14) ^ spec_rol(x, 22) ^ spec_rol(x, 30)
}

/// The S box applied to the four bytes of a word, alternating the two tables.
pub open spec fn spec_sbox(x: u32) -> u32 {
    (((spec_s0((x >> 24) as u8) as u32) << 24) | ((spec_s1(((x >> 16) & 0xFF) as u8) as u32) << 16)
        | ((spec_s0(((x >> 8) & 0xFF) as u8) as u32) << 8)) | (spec_s1((x & 0xFF) as u8) as u32)
}

/// Bit reorganization: four 32-bit words extracted from halves of registers
/// 15&14, 11&9, 7&5 and 2&0.
pub open spec fn spec_br(v: ZucView) -> Seq<u32> {
    seq![
        ((v.s[15] & 0x7FFF_8000) << 1) | (v.s[14] & 0xFFFF),
        ((v.s[11] & 0xFFFF) << 16) | (v.s[9] >> 15),
        ((v.s[7] & 0xFFFF) << 16) | (v.s[5] >> 15),
        ((v.s[2] & 0xFFFF) << 16) | (v.s[0] >> 15),
    ]
}

/// The nonlinear function F: the produced word and the new memory cells.
pub open spec fn spec_f(r1: u32, r2: u32, x0: u32, x1: u32, x2: u32) -> (u32, u32, u32) {
    let w = spec_add(x0 ^ r1, r2);
    let w1 = spec_add(r1, x1);
    let w2 = r2 ^ x2;
    (
        w,
        spec_sbox(spec_l1((w1 << 16) | (w2 >> 16))),
        spec_sbox(spec_l2((w2 << 16) | (w1 >> 16))),
    )
}

/// The 64-bit weighted feedback sum of the six chosen registers plus the
/// external input.
pub open spec fn spec_lfsr_sum(v: ZucView, u: u32) -> int {
    u + v.s[0] + v.s[0] * 0x100 + v.s[4] * 0x10_0000 + v.s[10] * 0x20_0000 + v.s[13] * 0x2_0000
        + v.s[15] * 0x8000
}

/// One fold of the reduction modulo 2^31 - 1: the part above bit 31 is
/// congruent to itself shifted down, so it is added back in.
pub open spec fn spec_fold31(x: int) -> int {
    x / 0x8000_0000 + x % 0x8000_0000
}

/// The new register value produced by one feedback step.
pub open spec fn spec_lfsr_s16(v: ZucView, u: u32) -> u32 {
    spec_fold31(spec_fold31(spec_lfsr_sum(v, u))) as u32
}

/// One feedback step: shift the file left by one slot and place the folded
/// sum in the last slot.
pub open spec fn spec_lfsr_next(v: ZucView, u: u32) -> ZucView {
    ZucView { s: v.s.subrange(1, 16).push(spec_lfsr_s16(v, u)), r1: v.r1, r2: v.r2 }
}

/// One keystream step: work-mode feedback, then bit reorganization and F.
/// Yields the produced word and the state after the step.
#[verifier::opaque]
pub open spec fn spec_gen(v: ZucView) -> (u32, ZucView) {
    let v1 = spec_lfsr_next(v, 0);
    let x = spec_br(v1);
    let (w, r1, r2) = spec_f(v1.r1, v1.r2, x[0], x[1], x[2]);
    (w ^ x[3], ZucView { s: v1.s, r1, r2 })
}

/// The word produced by the next keystream step.
pub open spec fn spec_word(v: ZucView) -> u32 {
    spec_gen(v).0
}

/// The state after the next keystream step.
pub open spec fn spec_step(v: ZucView) -> ZucView {
    spec_gen(v).1
}

/// One warm-up round: bit reorganization, F, and an initialization-mode
/// feedback step fed with the F output shifted right by one.
pub open spec fn spec_init_round(v: ZucView) -> ZucView {
    let x = spec_br(v);
    let (w, r1, r2) = spec_f(v.r1, v.r2, x[0], x[1], x[2]);
    spec_lfsr_next(ZucView { s: v.s, r1, r2 }, w >> 1)
}

/// `n` warm-up rounds.
pub open spec fn spec_init_rounds(v: ZucView, n: nat) -> ZucView
    decreases n,
{
    if n == 0 {
        v
    } else {
        spec_init_round(spec_init_rounds(v, (n - 1) as nat))
    }
}

/// The whole warm-up: 32 rounds, then one extra bit reorganization and F
/// whose output is discarded.
pub open spec fn spec_init(v: ZucView) -> ZucView {
    let v32 = spec_init_rounds(v, 32);
    let x = spec_br(v32);
    let (w, r1, r2) = spec_f(v32.r1, v32.r2, x[0], x[1], x[2]);
    ZucView { s: v32.s, r1, r2 }
}

/// The engine state reached after drawing `n` keystream words.
pub open spec fn zuc_after(v: ZucView, n: nat) -> ZucView
    decreases n,
{
    if n == 0 {
        v
    } else {
        spec_step(zuc_after(v, (n - 1) as nat))
    }
}

/// The first `n` keystream words drawn from state `v`.
pub open spec fn zuc_words(v: ZucView, n: nat) -> Seq<u32>
    decreases n,
{
    if n == 0 {
        seq![]
    } else {
        zuc_words(v, (n - 1) as nat).push(spec_word(zuc_after(v, (n - 1) as nat)))
    }
}

/// One fold keeps the value's residue modulo 2^31 - 1: a value split at bit
/// 31 is congruent to the sum of its two parts, because 2^31 is congruent
/// to 1.
pub proof fn lemma_fold31_congruence(x: int)
    requires
        x >= 0,
    ensures
        spec_fold31(x) % 0x7FFF_FFFF == x % 0x7FFF_FFFF,
{
    vstd::arithmetic::div_mod::lemma_fundamental_div_mod(x, 0x8000_0000);
    assert(x == 0x8000_0000 * (x / 0x8000_0000) + x % 0x8000_0000);
    assert(x == 0x7FFF_FFFF * (x / 0x8000_0000) + spec_fold31(x));
    vstd::arithmetic::div_mod::lemma_mod_multiples_vanish(
        x / 0x8000_0000,
        spec_fold31(x),
        0x7FFF_FFFF,
    );
}

/// The feedback step computes the weighted register sum reduced modulo
/// 2^31 - 1, without a division: the double fold lands in [0, 2^31) and
/// keeps the sum's residue.
pub proof fn lemma_lfsr_s16_mod(v: ZucView, u: u32)
    requires
        v.wf(),
        u < 0x8000_0000,
    ensures
        spec_lfsr_s16(v, u) < 0x8000_0000,
        spec_lfsr_s16(v, u) % 0x7FFF_FFFF == spec_lfsr_sum(v, u) % 0x7FFF_FFFF,
{
    let sum = spec_lfsr_sum(v, u);
    lemma_fold31_congruence(sum);
    lemma_fold31_congruence(spec_fold31(sum));
}

/// Drawing `m + n` words is drawing `m`, then `n` more from where the engine
/// stands: the word sequence of one engine is consistent however it is
/// pulled, so any two generators built from the same key and IV produce the
/// same words.
pub proof fn lemma_zuc_words_concat(v: ZucView, m: nat, n: nat)
    ensures
        zuc_after(v, m + n) == zuc_after(zuc_after(v, m), n),
        zuc_words(v, m + n) == zuc_words(v, m) + zuc_words(zuc_after(v, m), n),
    decreases n,
{
    if n == 0 {
        assert(zuc_words(zuc_after(v, m), 0) =~= Seq::<u32>::empty());
        assert(zuc_words(v, m + 0) =~= zuc_words(v, m) + zuc_words(zuc_after(v, m), 0));
    } else {
        lemma_zuc_words_concat(v, m, (n - 1) as nat);
        assert(zuc_after(v, m + n) == spec_step(zuc_after(v, (m + n - 1) as nat)));
        assert(zuc_words(v, m + n) =~= zuc_words(v, m) + zuc_words(zuc_after(v, m), n));
    }
}

/// Bound used when folding the feedback sum: w >> 1 always fits in 31 bits.
proof fn lemma_shr1_bound(w: u32)
    by (bit_vector)
    ensures
        w >> 1 < 0x8000_0000,
{
}

/// ZUC keystream generator
pub struct Zuc {
    /// LFSR registers (31-bit words x16)
    pub s: [u32; 16],
    /// R1 state unit (32 bits)
    pub r1: u32,
    /// R2 state unit (32 bits)
    pub r2: u32,
}

impl View for Zuc {
    type V = ZucView;

    open spec fn view(&self) -> ZucView {
        ZucView { s: self.s@, r1: self.r1, r2: self.r2 }
    }
}

/// The all-zero engine state.
pub open spec fn zeroed_view() -> ZucView {
    ZucView { s: Seq::new(16, |i: int| 0u32), r1: 0, r2: 0 }
}

/// L1 linear transform
fn l1(x: u32) -> (r: u32)
    ensures
        r == spec_l1(x),
{
    x ^ rol(x, 2) ^ rol(x, 10) ^ rol(x, 18) ^ rol(x, 24)
}

/// L2 linear transform
fn l2(x: u32) -> (r: u32)
    ensures
        r == spec_l2(x),
{
    x ^ rol(x, 8) ^ rol(x, 14) ^ rol(x, 22) ^ rol(x, 30)
}

/// S box transform
fn sbox(x: u32) -> (r: u32)
    ensures
        r == spec_sbox(x),
{
    let b0: u8 = (x >> 24) as u8;
    let b1: u8 = ((x >> 16) & 0xFF) as u8;
    let b2: u8 = ((x >> 8) & 0xFF) as u8;
    let b3: u8 = (x & 0xFF) as u8;
    (((S0[b0 as usize] as u32) << 24) | ((S1[b1 as usize] as u32) << 16) | ((S0[b2 as usize]
        as u32) << 8)) | (S1[b3 as usize] as u32)
}

impl Zuc {
    /// Zero-initialized
    pub fn zeroed() -> (z: Zuc)
        ensures
            z@ == zeroed_view(),
            z@.wf(),
    {
        let z = Zuc { s: [0; 16], r1: 0, r2: 0 };
        proof {
            assert(z@.s =~= zeroed_view().s);
        }
        z
    }

    /// `BitReconstruction` function
    fn bit_reconstruction(&self) -> (x: [u32; 4])
        requires
            self@.wf(),
        ensures
            x@ == spec_br(self@),
    {
        let x = [
            ((self.s[15] & 0x7FFF_8000) << 1) | (self.s[14] & 0xFFFF),
            ((self.s[11] & 0xFFFF) << 16) | (self.s[9] >> 15),
            ((self.s[7] & 0xFFFF) << 16) | (self.s[5] >> 15),
            ((self.s[2] & 0xFFFF) << 16) | (self.s[0] >> 15),
        ];
        proof {
            assert(x@ =~= spec_br(self@));
        }
        x
    }

    /// F non-linear function
    fn f(&mut self, x0: u32, x1: u32, x2: u32) -> (w: u32)
        ensures
            (w, final(self).r1, final(self).r2) == spec_f(old(self).r1, old(self).r2, x0, x1, x2),
            final(self).s == old(self).s,
    {
        let w = crate::utils::add(x0 ^ self.r1, self.r2);
        let w1 = crate::utils::add(self.r1, x1);
        let w2 = self.r2 ^ x2;
        self.r1 = sbox(l1((w1 << 16) | (w2 >> 16)));
        self.r2 = sbox(l2((w2 << 16) | (w1 >> 16)));
        w
    }

    /// `LFSRWithInitialisationMode` function
    fn lfsr_with_initialization_mode(&mut self, u: u32)
        requires
            old(self)@.wf(),
            u < 0x8000_0000,
        ensures
            final(self)@ == spec_lfsr_next(old(self)@, u),
            final(self)@.wf(),
    {
        let mut sum: u64 = u as u64;
        sum = sum + self.s[0] as u64;
        sum = sum + (self.s[0] as u64) * 0x100;
        sum = sum + (self.s[4] as u64) * 0x10_0000;
        sum = sum + (self.s[10] as u64) * 0x20_0000;
        sum = sum + (self.s[13] as u64) * 0x2_0000;
        sum = sum + (self.s[15] as u64) * 0x8000;
        assert(sum == spec_lfsr_sum(self@, u));
        let f1: u64 = sum / 0x8000_0000 + sum % 0x8000_0000;
        let f2: u64 = f1 / 0x8000_0000 + f1 % 0x8000_0000;
        assert(f2 == spec_fold31(spec_fold31(spec_lfsr_sum(self@, u))));
        assert(f2 < 0x8000_0000);
        let s16: u32 = f2 as u32;

        let ghost snap = self@;
        for i in 0..15
            invariant
                snap.wf(),
                self.s@.len() == 16,
                forall|j: int| 0 <= j < i ==> self.s@[j] == snap.s[j + 1],
                forall|j: int| i <= j < 16 ==> self.s@[j] == snap.s[j],
                self.r1 == snap.r1,
                self.r2 == snap.r2,
        {
            self.s[i] = self.s[i + 1];
        }
        self.s[15] = s16;
        proof {
            assert(self@.s =~= spec_lfsr_next(snap, u).s);
        }
    }

    /// `LFSRWithWorkMode` function
    pub fn lfsr_with_work_mode(&mut self)
        requires
            old(self)@.wf(),
        ensures
            final(self)@ == spec_lfsr_next(old(self)@, 0),
            final(self)@.wf(),
    {
        self.lfsr_with_initialization_mode(0);
    }

    /// Runs the warm-up: 32 initialization-mode rounds, then one extra
    /// bit reorganization and F whose output is discarded.
    pub fn init(&mut self)
        requires
            old(self)@.wf(),
        ensures
            final(self)@ == spec_init(old(self)@),
            final(self)@.wf(),
    {
        let ghost v0 = self@;
        for i in 0..32
            invariant
                self@ == spec_init_rounds(v0, i as nat),
                self@.wf(),
        {
            let x = self.bit_reconstruction();
            let w = self.f(x[0], x[1], x[2]);
            proof {
                lemma_shr1_bound(w);
            }
            self.lfsr_with_initialization_mode(w >> 1);
        }
        let x = self.bit_reconstruction();
        self.f(x[0], x[1], x[2]);
    }

    /// Generates the next 32-bit word in the keystream
    pub fn generate(&mut self) -> (z: u32)
        requires
            old(self)@.wf(),
        ensures
            z == spec_word(old(self)@),
            final(self)@ == spec_step(old(self)@),
            final(self)@.wf(),
    {
        proof {
            reveal(spec_gen);
        }
        self.lfsr_with_work_mode();
        let x = self.bit_reconstruction();
        let w = self.f(x[0], x[1], x[2]);
        w ^ x[3]
    }
}


/// The zero-padded chunk holding a message's trailing bits: the bytes of the
/// last (partial) `tbits`-bit block that `bitlen` reaches into, padded with
/// zeros to a whole block.
pub open spec fn spec_remaining_bytes(m: Seq<u8>, bitlen: nat, tbits: nat) -> Seq<u8> {
    let i = bitlen / tbits * (tbits / 8);
    let j = ((bitlen % tbits - 1) / 8) as nat;
    Seq::new(
        tbits / 8,
        |k: int|
            if k <= j {
                m[i + k]
            } else {
                0u8
            },
    )
}

/// Loads the zero-padded trailing block as a big-endian value.
fn load_remaining(bitlen: usize, m: &[u8], tbits: usize) -> (x: u128)
    requires
        tbits == 32 || tbits == 64 || tbits == 128,
        bitlen % tbits != 0,
        bitlen / tbits * (tbits / 8) + (bitlen % tbits - 1) / 8 < m@.len(),
    ensures
        x == spec_load_be(spec_remaining_bytes(m@, bitlen as nat, tbits as nat)),
{
    let ghost target = spec_remaining_bytes(m@, bitlen as nat, tbits as nat);
    proof {
        vstd::arithmetic::power2::lemma2_to64();
        if tbits == 32 {
            assert(bitlen / 32 * (32usize / 8) <= bitlen) by (nonlinear_arith);
        } else if tbits == 64 {
            assert(bitlen / 64 * (64usize / 8) <= bitlen) by (nonlinear_arith);
        } else {
            assert(bitlen / 128 * (128usize / 8) <= bitlen) by (nonlinear_arith);
        }
    }
    let i = bitlen / tbits * (tbits / 8);
    let j = (bitlen % tbits - 1) / 8;
    let tbytes = tbits / 8;
    let mlen = m.len();
    let mut x: u128 = 0;
    let mut k: usize = 0;
    proof {
        assert(target.take(0) =~= Seq::<u8>::empty());
    }
    while k < tbytes
        invariant
            k <= tbytes,
            tbytes == tbits / 8,
            tbytes <= 16,
            i == bitlen / tbits * (tbits / 8),
            j == (bitlen % tbits - 1) / 8,
            i + j < m@.len(),
            m@.len() == mlen,
            target == spec_remaining_bytes(m@, bitlen as nat, tbits as nat),
            target.len() == tbytes,
            x == spec_load_be(target.take(k as int)),
            x < vstd::arithmetic::power2::pow2((8 * k) as nat),
        decreases tbytes - k,
    {
        proof {
            lemma_pow2_values();
            if 8 * k < 120 {
                vstd::arithmetic::power2::lemma_pow2_strictly_increases((8 * k) as nat, 120);
            }
            vstd::arithmetic::power2::lemma_pow2_adds((8 * k) as nat, 8);
        }
        let b: u8 = if k <= j {
            m[i + k]
        } else {
            0
        };
        x = x * 256 + (b as u128);
        k = k + 1;
        proof {
            assert(target.take(k as int).drop_last() =~= target.take(k - 1));
            assert(target.take(k as int).last() == target[k - 1]);
        }
    }
    proof {
        assert(target.take(tbytes as int) =~= target);
    }
    x
}

/// trait convertible from bytes for zuc remaining bits
pub trait ZucFromBytes: Sized {
    /// The type's width in bits.
    spec fn t_bits() -> nat;

    /// The width is one of the three tag widths.
    proof fn t_bits_valid()
        ensures
            Self::t_bits() == 32 || Self::t_bits() == 64 || Self::t_bits() == 128,
    ;

    /// get remaining bits for zuc from message
    fn get_zuc_remaining_bits(bitlen: usize, m: &[u8]) -> (r: Self)
        requires
            (bitlen as nat) % Self::t_bits() != 0,
            (bitlen as nat) / Self::t_bits() * (Self::t_bits() / 8) + ((bitlen as nat)
                % Self::t_bits() - 1) / 8 < m@.len(),
    ;
}

impl ZucFromBytes for u32 {
    open spec fn t_bits() -> nat {
        32
    }

    proof fn t_bits_valid() {
    }

    fn get_zuc_remaining_bits(bitlen: usize, m: &[u8]) -> (r: u32)
        ensures
            r as nat == spec_load_be(spec_remaining_bytes(m@, bitlen as nat, 32)),
    {
        let x = load_remaining(bitlen, m, 32);
        proof {
            lemma_load_be_bound(spec_remaining_bytes(m@, bitlen as nat, 32));
            lemma_pow2_values();
        }
        x as u32
    }
}

impl ZucFromBytes for u64 {
    open spec fn t_bits() -> nat {
        64
    }

    proof fn t_bits_valid() {
    }

    fn get_zuc_remaining_bits(bitlen: usize, m: &[u8]) -> (r: u64)
        ensures
            r as nat == spec_load_be(spec_remaining_bytes(m@, bitlen as nat, 64)),
    {
        let x = load_remaining(bitlen, m, 64);
        proof {
            lemma_load_be_bound(spec_remaining_bytes(m@, bitlen as nat, 64));
            lemma_pow2_values();
        }
        x as u64
    }
}

impl ZucFromBytes for u128 {
    open spec fn t_bits() -> nat {
        128
    }

    proof fn t_bits_valid() {
    }

    fn get_zuc_remaining_bits(bitlen: usize, m: &[u8]) -> (r: u128)
        ensures
            r == spec_load_be(spec_remaining_bytes(m@, bitlen as nat, 128)),
    {
        load_remaining(bitlen, m, 128)
    }
}

} // verus!
