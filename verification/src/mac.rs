//! The width-polymorphic MAC core: a keystream-driven bit-sliding universal
//! hash over 32-, 64- or 128-bit tags.
//!
//! The accumulator holds a tag of `T` bits and a sliding `2T`-bit window of
//! keystream ("key pair"). For every message bit, most significant first: if
//! the bit is set, the window's high half is XOR'd into the tag; then the
//! message register and the window both slide left by one. After each whole
//! `T`-bit chunk a fresh `T`-bit keystream word refills the window's low half.

use vstd::prelude::*;

use crate::utils::lemma_load_be_bound;
use crate::utils::lemma_pow2_values;
use crate::utils::spec_load_be;
use crate::utils::U256;
use crate::zuc::spec_step;
use crate::zuc::spec_word;
use crate::zuc::zuc_after;
use crate::zuc::Zuc;
use crate::zuc::ZucView;

verus! {

/// The three tag widths of the MAC family.
#[derive(Clone, Copy, PartialEq, Eq, Structural, Debug)]
pub enum TagWidth {
    /// a 32-bit tag
    W32,
    /// a 64-bit tag
    W64,
    /// a 128-bit tag
    W128,
}

impl TagWidth {
    /// The tag width in bits.
    pub open spec fn bits(self) -> nat {
        match self {
            TagWidth::W32 => 32,
            TagWidth::W64 => 64,
            TagWidth::W128 => 128,
        }
    }

    /// The tag width in bytes.
    pub open spec fn bytes(self) -> nat {
        self.bits() / 8
    }

    /// The number of 32-bit keystream words in one tag word.
    pub open spec fn words(self) -> nat {
        self.bits() / 32
    }

    /// The low `bits` of a 128-bit register: every value a tag word may take.
    pub open spec fn mask(self) -> u128 {
        match self {
            TagWidth::W32 => 0xFFFF_FFFF,
            TagWidth::W64 => 0xFFFF_FFFF_FFFF_FFFF,
            TagWidth::W128 => 0xFFFF_FFFF_FFFF_FFFF_FFFF_FFFF_FFFF_FFFF,
        }
    }

    /// The most significant bit of a tag word.
    pub open spec fn top_mask(self) -> u128 {
        match self {
            TagWidth::W32 => 0x8000_0000,
            TagWidth::W64 => 0x8000_0000_0000_0000,
            TagWidth::W128 => 0x8000_0000_0000_0000_0000_0000_0000_0000,
        }
    }

    /// The tag width in bytes.
    pub fn byte_count(self) -> (n: usize)
        ensures
            n == self.bytes(),
    {
        match self {
            TagWidth::W32 => 4,
            TagWidth::W64 => 8,
            TagWidth::W128 => 16,
        }
    }

    /// The tag width in bits.
    pub fn bit_count(self) -> (n: usize)
        ensures
            n == self.bits(),
    {
        match self {
            TagWidth::W32 => 32,
            TagWidth::W64 => 64,
            TagWidth::W128 => 128,
        }
    }

    /// The value mask, as a run-time constant.
    fn mask_word(self) -> (m: u128)
        ensures
            m == self.mask(),
    {
        match self {
            TagWidth::W32 => 0xFFFF_FFFF,
            TagWidth::W64 => 0xFFFF_FFFF_FFFF_FFFF,
            TagWidth::W128 => 0xFFFF_FFFF_FFFF_FFFF_FFFF_FFFF_FFFF_FFFF,
        }
    }

    /// The top-bit mask, as a run-time constant.
    fn top_mask_word(self) -> (m: u128)
        ensures
            m == self.top_mask(),
    {
        match self {
            TagWidth::W32 => 0x8000_0000,
            TagWidth::W64 => 0x8000_0000_0000_0000,
            TagWidth::W128 => 0x8000_0000_0000_0000_0000_0000_0000_0000,
        }
    }
}

/// The MAC accumulator: the engine it draws from, the two halves of the
/// sliding key window, and the running tag.
#[verifier::ext_equal]
pub struct MacAcc {
    /// the keystream engine state
    pub zuc: ZucView,
    /// high half of the 2T-bit key window
    pub key_hi: u128,
    /// low half of the 2T-bit key window
    pub key_lo: u128,
    /// the running tag
    pub tag: u128,
}

/// The whole abstract MAC state: the accumulator plus the buffered trailing
/// bytes that do not yet fill a tag-word chunk.
#[verifier::ext_equal]
pub struct MacView {
    /// the accumulator
    pub acc: MacAcc,
    /// buffered message bytes, fewer than one chunk
    pub rem: Seq<u8>,
}

/// One bit step on `(bits, key_hi, key_lo, tag)`: XOR the window's high half
/// into the tag when the register's top bit is set, then slide the register
/// and the window left by one.
pub open spec fn spec_bit_step(w: TagWidth, x: u128, hi: u128, lo: u128, tag: u128) -> (
    u128,
    u128,
    u128,
    u128,
) {
    let t2 = if x & w.top_mask() != 0 {
        tag ^ hi
    } else {
        tag
    };
    let shifted = spec_keypair_shift(w, hi, lo);
    ((x << 1u128) & w.mask(), shifted.0, shifted.1, t2)
}

/// The 2T-bit key window shifted left by one, half by half.
pub open spec fn spec_keypair_shift(w: TagWidth, hi: u128, lo: u128) -> (u128, u128) {
    match w {
        TagWidth::W32 => ((((hi << 1u128) & 0xFFFF_FFFF) | (lo >> 31u128)), (lo << 1u128)
            & 0xFFFF_FFFF),
        TagWidth::W64 => ((((hi << 1u128) & 0xFFFF_FFFF_FFFF_FFFF) | (lo >> 63u128)), (lo << 1u128)
            & 0xFFFF_FFFF_FFFF_FFFF),
        TagWidth::W128 => ((((hi << 1u128) & 0xFFFF_FFFF_FFFF_FFFF_FFFF_FFFF_FFFF_FFFF) | (lo
            >> 127u128)), (lo << 1u128) & 0xFFFF_FFFF_FFFF_FFFF_FFFF_FFFF_FFFF_FFFF),
    }
}

/// `n` bit steps, consuming the top `n` bits of `x`.
pub open spec fn spec_absorb_value(
    w: TagWidth,
    x: u128,
    n: nat,
    hi: u128,
    lo: u128,
    tag: u128,
) -> (u128, u128, u128)
    decreases n,
{
    if n == 0 {
        (hi, lo, tag)
    } else {
        let step = spec_bit_step(w, x, hi, lo, tag);
        spec_absorb_value(w, step.0, (n - 1) as nat, step.1, step.2, step.3)
    }
}

/// One `T`-bit keystream word: `T / 32` engine words, most significant first.
pub open spec fn spec_tag_word(w: TagWidth, v: ZucView) -> u128 {
    match w {
        TagWidth::W32 => spec_word(v) as u128,
        TagWidth::W64 => ((spec_word(v) as u128) << 32u128) | (spec_word(zuc_after(v, 1)) as u128),
        TagWidth::W128 => (((spec_word(v) as u128) << 96u128) | ((spec_word(zuc_after(v, 1))
            as u128) << 64u128) | ((spec_word(zuc_after(v, 2)) as u128) << 32u128)) | (spec_word(
            zuc_after(v, 3),
        ) as u128),
    }
}

/// The engine state after one `T`-bit keystream word is drawn.
pub open spec fn spec_after_word(w: TagWidth, v: ZucView) -> ZucView {
    zuc_after(v, w.words())
}

/// Absorb one whole chunk, given as its big-endian value `x`: run `T` bit
/// steps, then refill the window's low half with a fresh keystream word.
pub open spec fn spec_feed_value(w: TagWidth, a: MacAcc, x: u128) -> MacAcc {
    let absorbed = spec_absorb_value(w, x, w.bits(), a.key_hi, a.key_lo, a.tag);
    MacAcc {
        zuc: spec_after_word(w, a.zuc),
        key_hi: absorbed.0,
        key_lo: spec_tag_word(w, a.zuc),
        tag: absorbed.2,
    }
}

/// Absorb a byte sequence chunk by chunk; the trailing bytes that do not
/// fill a chunk come back as the new buffer.
pub open spec fn spec_absorb_bytes(w: TagWidth, a: MacAcc, bytes: Seq<u8>) -> (MacAcc, Seq<u8>)
    decreases bytes.len(),
{
    if bytes.len() < w.bytes() {
        (a, bytes)
    } else {
        spec_absorb_bytes(
            w,
            spec_feed_value(w, a, spec_load_be(bytes.take(w.bytes() as int)) as u128),
            bytes.skip(w.bytes() as int),
        )
    }
}

/// The streaming `update` operation on the abstract state.
pub open spec fn spec_mac_update(w: TagWidth, m: MacView, msg: Seq<u8>) -> MacView {
    let stepped = spec_absorb_bytes(w, m.acc, m.rem + msg);
    MacView { acc: stepped.0, rem: stepped.1 }
}

/// The final bit register: the buffered bytes, then `extra` (the byte
/// holding the sub-byte trailing bits), zero-padded to a whole chunk.
pub open spec fn spec_tail_register(w: TagWidth, rem: Seq<u8>, extra: u8) -> u128 {
    spec_load_be(
        Seq::new(
            w.bytes(),
            |i: int|
                if i < rem.len() {
                    rem[i]
                } else if i == rem.len() {
                    extra
                } else {
                    0u8
                },
        ),
    ) as u128
}

/// The streaming `finish` operation on the abstract state: absorb the whole
/// bytes of `tail` implied by `bitlen`, then run one bit step per pending
/// bit. Yields the final state and the number of pending bits it consumed.
pub open spec fn spec_mac_finish(w: TagWidth, m: MacView, tail: Seq<u8>, bitlen: nat) -> (
    MacView,
    nat,
) {
    let m1 = if bitlen >= 8 {
        spec_mac_update(w, m, tail.take((bitlen / 8) as int))
    } else {
        m
    };
    let t0 = if bitlen >= 8 {
        tail.skip((bitlen / 8) as int)
    } else {
        tail
    };
    let bl = bitlen % 8;
    let fb = m1.rem.len() * 8 + bl;
    if fb == 0 {
        (m1, 0)
    } else {
        let reg = spec_tail_register(
            w,
            m1.rem,
            if bl != 0 {
                t0[0]
            } else {
                0u8
            },
        );
        let absorbed = spec_absorb_value(w, reg, fb, m1.acc.key_hi, m1.acc.key_lo, m1.acc.tag);
        (
            MacView {
                acc: MacAcc {
                    zuc: m1.acc.zuc,
                    key_hi: absorbed.0,
                    key_lo: absorbed.1,
                    tag: absorbed.2,
                },
                rem: m1.rem,
            },
            fb,
        )
    }
}

/// Absorbing `u` and then `y` more bytes (together with what `u` left
/// buffered) is absorbing `u ++ y` at once.
pub proof fn lemma_absorb_bytes_concat(w: TagWidth, a: MacAcc, u: Seq<u8>, y: Seq<u8>)
    ensures
        spec_absorb_bytes(w, a, u + y) == spec_absorb_bytes(
            w,
            spec_absorb_bytes(w, a, u).0,
            spec_absorb_bytes(w, a, u).1 + y,
        ),
    decreases u.len(),
{
    let c = w.bytes() as int;
    if u.len() < w.bytes() {
        assert(spec_absorb_bytes(w, a, u) == (a, u));
        assert(u + y == spec_absorb_bytes(w, a, u).1 + y);
    } else {
        let a2 = spec_feed_value(w, a, spec_load_be(u.take(c)) as u128);
        assert((u + y).len() >= w.bytes());
        assert((u + y).take(c) =~= u.take(c));
        assert((u + y).skip(c) =~= u.skip(c) + y);
        lemma_absorb_bytes_concat(w, a2, u.skip(c), y);
        assert(spec_absorb_bytes(w, a, u + y) == spec_absorb_bytes(w, a2, (u + y).skip(c)));
        assert(spec_absorb_bytes(w, a, u) == spec_absorb_bytes(w, a2, u.skip(c)));
    }
}

/// Splitting a message across two `update` calls gives the same state as one
/// call on the whole message.
pub proof fn lemma_update_concat(w: TagWidth, m: MacView, x: Seq<u8>, y: Seq<u8>)
    ensures
        spec_mac_update(w, spec_mac_update(w, m, x), y) == spec_mac_update(w, m, x + y),
{
    lemma_absorb_bytes_concat(w, m.acc, m.rem + x, y);
    assert((m.rem + x) + y =~= m.rem + (x + y));
    assert(spec_mac_update(w, spec_mac_update(w, m, x), y) =~= spec_mac_update(w, m, x + y));
}

/// Updating with nothing leaves a valid state unchanged.
pub proof fn lemma_update_empty(w: TagWidth, m: MacView)
    requires
        m.rem.len() < w.bytes(),
    ensures
        spec_mac_update(w, m, Seq::<u8>::empty()) == m,
{
    assert(m.rem + Seq::<u8>::empty() =~= m.rem);
    assert(spec_mac_update(w, m, Seq::<u8>::empty()) =~= m);
}

/// A zero-bit finish is well-defined: the tag never depends on the bytes of
/// a buffer it was told holds no message bits.
pub proof fn lemma_finish_zero_bits(w: TagWidth, m: MacView, tail: Seq<u8>)
    ensures
        spec_mac_finish(w, m, tail, 0) == spec_mac_finish(w, m, Seq::<u8>::empty(), 0),
{
}

/// Streaming equivalence: feeding the first `p` whole bytes through `update`
/// and the rest through `finish` ends exactly as one `finish` over the whole
/// message, for every message, bit length and split point.
#[verifier::rlimit(100)]
pub proof fn lemma_streaming_equivalence(
    w: TagWidth,
    m: MacView,
    msg: Seq<u8>,
    bitlen: nat,
    p: nat,
)
    requires
        m.rem.len() < w.bytes(),
        bitlen <= msg.len() * 8,
        p <= bitlen / 8,
    ensures
        spec_mac_finish(
            w,
            spec_mac_update(w, m, msg.take(p as int)),
            msg.skip(p as int),
            (bitlen - 8 * p) as nat,
        ) == spec_mac_finish(w, m, msg, bitlen),
{
    let nb = (bitlen / 8) as int;
    let bl = bitlen % 8;
    let rest = (bitlen - 8 * p) as nat;
    let mp = spec_mac_update(w, m, msg.take(p as int));
    if bitlen < 8 {
        assert(p == 0);
        assert(msg.take(0) =~= Seq::<u8>::empty());
        lemma_update_empty(w, m);
        assert(msg.skip(0) =~= msg);
    } else {
        if p < nb {
            assert(rest >= 8);
            assert(rest / 8 == nb - p);
            assert(rest % 8 == bl);
            let mid = msg.skip(p as int).take(nb - p);
            assert(mid =~= msg.subrange(p as int, nb));
            lemma_update_concat(w, m, msg.take(p as int), mid);
            assert(msg.take(p as int) + mid =~= msg.take(nb));
            assert(spec_mac_update(w, mp, mid) == spec_mac_update(w, m, msg.take(nb)));
            assert(msg.skip(p as int).skip(nb - p) =~= msg.skip(nb));
        } else {
            assert(p == nb);
            assert(rest == bl);
            if rest >= 8 {
                assert(bl >= 8);
                assert(false);
            }
            assert(msg.skip(p as int) =~= msg.skip(nb));
        }
    }
}

/// Bounds kept by one bit step at width 32.
proof fn lemma_shift_bounds_32(hi: u128, lo: u128, tag: u128)
    by (bit_vector)
    requires
        hi <= 0xFFFF_FFFF,
        lo <= 0xFFFF_FFFF,
        tag <= 0xFFFF_FFFF,
    ensures
        (((hi << 1u128) & 0xFFFF_FFFF) | (lo >> 31u128)) <= 0xFFFF_FFFF,
        ((lo << 1u128) & 0xFFFF_FFFF) <= 0xFFFF_FFFF,
        (tag ^ hi) <= 0xFFFF_FFFF,
{
}

/// Bounds kept by one bit step at width 64.
proof fn lemma_shift_bounds_64(hi: u128, lo: u128, tag: u128)
    by (bit_vector)
    requires
        hi <= 0xFFFF_FFFF_FFFF_FFFF,
        lo <= 0xFFFF_FFFF_FFFF_FFFF,
        tag <= 0xFFFF_FFFF_FFFF_FFFF,
    ensures
        (((hi << 1u128) & 0xFFFF_FFFF_FFFF_FFFF) | (lo >> 63u128)) <= 0xFFFF_FFFF_FFFF_FFFF,
        ((lo << 1u128) & 0xFFFF_FFFF_FFFF_FFFF) <= 0xFFFF_FFFF_FFFF_FFFF,
        (tag ^ hi) <= 0xFFFF_FFFF_FFFF_FFFF,
{
}

/// XOR of two in-range tag words stays in range.
pub proof fn lemma_xor_in_mask(w: TagWidth, a: u128, b: u128)
    requires
        a <= w.mask(),
        b <= w.mask(),
    ensures
        (a ^ b) <= w.mask(),
{
    match w {
        TagWidth::W32 => lemma_shift_bounds_32(b, 0, a),
        TagWidth::W64 => lemma_shift_bounds_64(b, 0, a),
        TagWidth::W128 => {
        },
    }
}

/// A 64-bit tag word assembled from two engine words stays in range.
proof fn lemma_word64_bound(a: u32, b: u32)
    by (bit_vector)
    ensures
        (((a as u128) << 32u128) | (b as u128)) <= 0xFFFF_FFFF_FFFF_FFFF,
{
}

/// One whole chunk loads to a value within the width's mask.
proof fn lemma_chunk_in_mask(w: TagWidth, bytes: Seq<u8>)
    requires
        bytes.len() == w.bytes(),
    ensures
        spec_load_be(bytes) <= w.mask(),
{
    lemma_load_be_bound(bytes);
    lemma_pow2_values();
}

/// The big-endian value of the first `count` bytes.
fn load_be(bytes: &[u8], count: usize) -> (x: u128)
    requires
        count <= bytes@.len(),
        count <= 16,
    ensures
        x == spec_load_be(bytes@.take(count as int)),
{
    let mut x: u128 = 0;
    let mut i: usize = 0;
    proof {
        assert(bytes@.take(0) =~= Seq::<u8>::empty());
    }
    while i < count
        invariant
            i <= count,
            count <= bytes@.len(),
            count <= 16,
            x == spec_load_be(bytes@.take(i as int)),
        decreases count - i,
    {
        proof {
            lemma_load_be_bound(bytes@.take(i as int));
            lemma_pow2_values();
            if 8 * i < 120 {
                vstd::arithmetic::power2::lemma_pow2_strictly_increases((8 * i) as nat, 120);
            }
        }
        x = x * 256 + (bytes[i] as u128);
        i = i + 1;
        proof {
            assert(bytes@.take(i as int).drop_last() =~= bytes@.take(i - 1));
            assert(bytes@.take(i as int).last() == bytes@[i - 1]);
        }
    }
    x
}

/// One bit step of the accumulator, on the message register, the tag and the
/// key window.
fn xor_step(w: TagWidth, bits: &mut u128, tag: &mut u128, key: &mut U256)
    requires
        old(key).high <= w.mask(),
        old(key).low <= w.mask(),
        *old(tag) <= w.mask(),
    ensures
        (*final(bits), final(key).high, final(key).low, *final(tag)) == spec_bit_step(
            w,
            *old(bits),
            old(key).high,
            old(key).low,
            *old(tag),
        ),
        final(key).high <= w.mask(),
        final(key).low <= w.mask(),
        *final(tag) <= w.mask(),
{
    let tm = w.top_mask_word();
    let mk = w.mask_word();
    let sh: u128 = match w {
        TagWidth::W32 => 31,
        TagWidth::W64 => 63,
        TagWidth::W128 => 127,
    };
    if *bits & tm != 0 {
        *tag = *tag ^ key.high;
    }
    let hi2 = ((key.high << 1u128) & mk) | (key.low >> sh);
    let lo2 = (key.low << 1u128) & mk;
    proof {
        match w {
            TagWidth::W32 => lemma_shift_bounds_32(old(key).high, old(key).low, *old(tag)),
            TagWidth::W64 => lemma_shift_bounds_64(old(key).high, old(key).low, *old(tag)),
            TagWidth::W128 => {
            },
        }
    }
    key.high = hi2;
    key.low = lo2;
    *bits = (*bits << 1u128) & mk;
}

/// Draws one `T`-bit keystream word: `T / 32` engine words, most significant
/// first.
pub(crate) fn gen_word(zuc: &mut Zuc, w: TagWidth) -> (r: u128)
    requires
        old(zuc)@.wf(),
    ensures
        r == spec_tag_word(w, old(zuc)@),
        final(zuc)@ == spec_after_word(w, old(zuc)@),
        final(zuc)@.wf(),
        r <= w.mask(),
{
    let ghost v0 = zuc@;
    match w {
        TagWidth::W32 => {
            let a = zuc.generate();
            proof {
                assert(zuc_after(v0, 1) == spec_step(zuc_after(v0, 0)));
            }
            a as u128
        },
        TagWidth::W64 => {
            let a = zuc.generate();
            let b = zuc.generate();
            proof {
                assert(zuc_after(v0, 1) == spec_step(zuc_after(v0, 0)));
                assert(zuc_after(v0, 2) == spec_step(zuc_after(v0, 1)));
                lemma_word64_bound(a, b);
            }
            ((a as u128) << 32u128) | (b as u128)
        },
        TagWidth::W128 => {
            let a = zuc.generate();
            let b = zuc.generate();
            let d = zuc.generate();
            let e = zuc.generate();
            proof {
                assert(zuc_after(v0, 1) == spec_step(zuc_after(v0, 0)));
                assert(zuc_after(v0, 2) == spec_step(zuc_after(v0, 1)));
                assert(zuc_after(v0, 3) == spec_step(zuc_after(v0, 2)));
                assert(zuc_after(v0, 4) == spec_step(zuc_after(v0, 3)));
            }
            (((a as u128) << 96u128) | ((b as u128) << 64u128) | ((d as u128) << 32u128)) | (e
                as u128)
        },
    }
}

/// The streaming MAC accumulator.
pub struct MacCore {
    /// the keystream engine
    pub zuc: Zuc,
    /// the tag width
    pub width: TagWidth,
    /// the 2T-bit key window, `T` bits in each half
    pub key: U256,
    /// the running tag
    pub tag: u128,
    /// buffer for trailing bytes that do not fill a chunk
    pub rem: [u8; 16],
    /// the number of buffered bytes
    pub cnt: u8,
}

impl View for MacCore {
    type V = MacView;

    open spec fn view(&self) -> MacView {
        MacView {
            acc: MacAcc {
                zuc: self.zuc@,
                key_hi: self.key.high,
                key_lo: self.key.low,
                tag: self.tag,
            },
            rem: self.rem@.take(self.cnt as int),
        }
    }
}

impl MacCore {
    /// Well-formed: engine registers in range, fewer buffered bytes than one
    /// chunk, and the key window and tag within the width's mask.
    pub open spec fn wf(self) -> bool {
        &&& self.zuc@.wf()
        &&& (self.cnt as nat) < self.width.bytes()
        &&& self.key.high <= self.width.mask()
        &&& self.key.low <= self.width.mask()
        &&& self.tag <= self.width.mask()
    }

    /// Absorbs one whole chunk given as its big-endian value, then slides
    /// the key window on by a fresh keystream word.
    fn feed_word(&mut self, bits: u128)
        requires
            old(self).wf(),
            bits <= old(self).width.mask(),
        ensures
            final(self)@.acc == spec_feed_value(old(self).width, old(self)@.acc, bits),
            final(self).width == old(self).width,
            final(self).rem == old(self).rem,
            final(self).cnt == old(self).cnt,
            final(self).wf(),
    {
        let w = self.width;
        let nbits = w.bit_count();
        let mut b = bits;
        let ghost a0 = self@.acc;
        let mut j: usize = 0;
        while j < nbits
            invariant
                j <= nbits,
                nbits == w.bits(),
                self.width == w,
                self.key.high <= w.mask(),
                self.key.low <= w.mask(),
                self.tag <= w.mask(),
                self.zuc@ == a0.zuc,
                self.zuc@.wf(),
                self.rem == old(self).rem,
                self.cnt == old(self).cnt,
                spec_absorb_value(w, bits, w.bits(), a0.key_hi, a0.key_lo, a0.tag)
                    == spec_absorb_value(
                    w,
                    b,
                    (nbits - j) as nat,
                    self.key.high,
                    self.key.low,
                    self.tag,
                ),
            decreases nbits - j,
        {
            let ghost pre_b = b;
            let ghost pre_hi = self.key.high;
            let ghost pre_lo = self.key.low;
            let ghost pre_tag = self.tag;
            xor_step(w, &mut b, &mut self.tag, &mut self.key);
            j = j + 1;
            proof {
                assert(spec_absorb_value(
                    w,
                    pre_b,
                    (nbits - j + 1) as nat,
                    pre_hi,
                    pre_lo,
                    pre_tag,
                ) == {
                    let step = spec_bit_step(w, pre_b, pre_hi, pre_lo, pre_tag);
                    spec_absorb_value(w, step.0, (nbits - j) as nat, step.1, step.2, step.3)
                });
            }
        }
        let fresh = gen_word(&mut self.zuc, w);
        self.key.low = fresh;
        proof {
            assert(self@.acc =~= spec_feed_value(w, a0, bits));
        }
    }

    /// Update the MAC with further message bytes. Trailing bytes that do not
    /// fill a whole chunk are buffered for the next call.
    #[verifier::rlimit(100)]
    pub fn update(&mut self, msg: &[u8])
        requires
            old(self).wf(),
        ensures
            final(self)@ == spec_mac_update(old(self).width, old(self)@, msg@),
            final(self).width == old(self).width,
            final(self).wf(),
    {
        let w = self.width;
        let ghost m0 = self@;
        let ghost target = spec_mac_update(w, m0, msg@);
        if msg.len() == 0 {
            proof {
                assert(msg@ =~= Seq::<u8>::empty());
                lemma_update_empty(w, m0);
            }
            return;
        }
        let c = w.byte_count();
        let cnt = self.cnt as usize;
        let mut off: usize = 0;
        if cnt > 0 {
            if msg.len() < c - cnt {
                let mut k: usize = 0;
                while k < msg.len()
                    invariant
                        k <= msg@.len(),
                        cnt + msg@.len() < c,
                        c == w.bytes(),
                        c <= 16,
                        cnt == old(self).cnt as usize,
                        self.zuc == old(self).zuc,
                        self.key == old(self).key,
                        self.tag == old(self).tag,
                        self.width == w,
                        self.cnt == old(self).cnt,
                        forall|i: int| 0 <= i < cnt ==> self.rem@[i] == old(self).rem@[i],
                        forall|i: int| 0 <= i < k ==> self.rem@[cnt + i] == msg@[i],
                    decreases msg@.len() - k,
                {
                    self.rem[cnt + k] = msg[k];
                    k = k + 1;
                }
                self.cnt = (cnt + msg.len()) as u8;
                proof {
                    assert(self@.rem =~= m0.rem + msg@);
                    assert((m0.rem + msg@).len() < w.bytes());
                    assert(self@ =~= target);
                }
                return;
            }
            let fill = c - cnt;
            let mut k: usize = 0;
            while k < fill
                invariant
                    k <= fill,
                    fill == c - cnt,
                    0 < cnt < c,
                    c == w.bytes(),
                    c <= 16,
                    fill <= msg@.len(),
                    cnt == old(self).cnt as usize,
                    self.zuc == old(self).zuc,
                    self.key == old(self).key,
                    self.tag == old(self).tag,
                    self.width == w,
                    self.cnt == old(self).cnt,
                    forall|i: int| 0 <= i < cnt ==> self.rem@[i] == old(self).rem@[i],
                    forall|i: int| 0 <= i < k ==> self.rem@[cnt + i] == msg@[i],
                decreases fill - k,
            {
                self.rem[cnt + k] = msg[k];
                k = k + 1;
            }
            let bits = load_be(&self.rem, c);
            proof {
                assert(self.rem@.take(c as int) =~= m0.rem + msg@.take(fill as int));
                assert((m0.rem + msg@).take(c as int) =~= m0.rem + msg@.take(fill as int));
                lemma_chunk_in_mask(w, self.rem@.take(c as int));
            }
            self.feed_word(bits);
            self.cnt = 0;
            off = fill;
            proof {
                assert((m0.rem + msg@).skip(c as int) =~= msg@.skip(off as int));
                assert((m0.rem + msg@).len() >= w.bytes());
            }
        }
        proof {
            if cnt == 0 {
                assert(m0.rem =~= Seq::<u8>::empty());
                assert(m0.rem + msg@ =~= msg@.skip(0));
            }
            assert(spec_absorb_bytes(w, self@.acc, msg@.skip(off as int)).0 == target.acc);
            assert(spec_absorb_bytes(w, self@.acc, msg@.skip(off as int)).1 == target.rem);
        }
        while msg.len() - off >= c
            invariant
                c == w.bytes(),
                4 <= c <= 16,
                off <= msg@.len(),
                msg@.len() <= usize::MAX,
                self.width == w,
                self.cnt == 0,
                self.zuc@.wf(),
                self.key.high <= w.mask(),
                self.key.low <= w.mask(),
                self.tag <= w.mask(),
                spec_absorb_bytes(w, self@.acc, msg@.skip(off as int)).0 == target.acc,
                spec_absorb_bytes(w, self@.acc, msg@.skip(off as int)).1 == target.rem,
            decreases msg@.len() - off,
        {
            let chunk = vstd::slice::slice_subrange(msg, off, off + c);
            let bits = load_be(chunk, c);
            proof {
                assert(chunk@.take(c as int) =~= msg@.subrange(off as int, off + c));
                assert(msg@.skip(off as int).take(c as int) =~= msg@.subrange(off as int, off + c));
                assert(msg@.skip(off as int).skip(c as int) =~= msg@.skip(off + c));
                lemma_chunk_in_mask(w, msg@.subrange(off as int, off + c));
            }
            self.feed_word(bits);
            off = off + c;
        }
        let restlen = msg.len() - off;
        let ghost acc1 = self@.acc;
        let mut k: usize = 0;
        while k < restlen
            invariant
                k <= restlen,
                restlen == msg@.len() - off,
                msg@.len() <= usize::MAX,
                restlen < c,
                c == w.bytes(),
                c <= 16,
                off + restlen == msg@.len(),
                self.width == w,
                self.cnt == 0,
                self@.acc == acc1,
                self.zuc@.wf(),
                self.key.high <= w.mask(),
                self.key.low <= w.mask(),
                self.tag <= w.mask(),
                spec_absorb_bytes(w, self@.acc, msg@.skip(off as int)).0 == target.acc,
                spec_absorb_bytes(w, self@.acc, msg@.skip(off as int)).1 == target.rem,
                forall|i: int| 0 <= i < k ==> self.rem@[i] == msg@[off + i],
            decreases restlen - k,
        {
            self.rem[k] = msg[off + k];
            k = k + 1;
        }
        self.cnt = restlen as u8;
        proof {
            assert(self@.rem =~= msg@.skip(off as int));
            assert(self@ =~= target);
        }
    }

    /// Finish: absorb the whole bytes of `tail` implied by `bitlen`, then run
    /// one bit step per pending bit — the buffered bits plus the sub-byte
    /// trailing bits. Returns how many pending bits there were.
    #[verifier::rlimit(100)]
    pub fn finish(&mut self, tail: &[u8], bitlen: usize) -> (fb: usize)
        requires
            old(self).wf(),
            bitlen <= tail@.len() * 8,
        ensures
            final(self)@ == spec_mac_finish(old(self).width, old(self)@, tail@, bitlen as nat).0,
            fb == spec_mac_finish(old(self).width, old(self)@, tail@, bitlen as nat).1,
            final(self).width == old(self).width,
            final(self).wf(),
    {
        let w = self.width;
        let ghost m0 = self@;
        let ghost spec_result = spec_mac_finish(w, m0, tail@, bitlen as nat);
        let mut bl = bitlen;
        let mut t0: &[u8] = tail;
        if bitlen >= 8 {
            let nb = bitlen / 8;
            let head = vstd::slice::slice_subrange(tail, 0, nb);
            proof {
                assert(head@ =~= tail@.take(nb as int));
            }
            self.update(head);
            t0 = vstd::slice::slice_subrange(tail, nb, tail.len());
            bl = bitlen % 8;
            proof {
                assert(t0@ =~= tail@.skip(nb as int));
            }
        }
        let ghost m1 = self@;
        let c = w.byte_count();
        let cnt = self.cnt as usize;
        let mut buf: [u8; 16] = [0; 16];
        let mut k: usize = 0;
        proof {
            assert(forall|i: int| 0 <= i < 16 ==> buf@[i] == 0);
        }
        while k < cnt
            invariant
                k <= cnt,
                cnt <= 15,
                cnt == self.cnt as usize,
                forall|i: int| 0 <= i < k ==> buf@[i] == self.rem@[i],
                forall|i: int| k <= i < 16 ==> buf@[i] == 0,
            decreases cnt - k,
        {
            buf[k] = self.rem[k];
            k = k + 1;
        }
        if bl != 0 {
            assert(t0@.len() > 0);
            buf[cnt] = t0[0];
        }
        let fb = cnt * 8 + bl;
        if fb != 0 {
            let x0 = load_be(&buf, c);
            let ghost reg = spec_tail_register(
                w,
                m1.rem,
                if bl != 0 {
                    t0@[0]
                } else {
                    0u8
                },
            );
            proof {
                let padded = Seq::new(
                    w.bytes(),
                    |i: int|
                        if i < m1.rem.len() {
                            m1.rem[i]
                        } else if i == m1.rem.len() {
                            if bl != 0 {
                                t0@[0]
                            } else {
                                0u8
                            }
                        } else {
                            0u8
                        },
                );
                assert(buf@.take(c as int) =~= padded);
                lemma_chunk_in_mask(w, padded);
                lemma_load_be_bound(padded);
                lemma_pow2_values();
            }
            let mut b = x0;
            let ghost a1 = self@.acc;
            let ghost rem1 = self.rem;
            let mut j: usize = 0;
            while j < fb
                invariant
                    j <= fb,
                    fb == cnt * 8 + bl,
                    fb <= 127,
                    cnt == self.cnt as usize,
                    self.rem == rem1,
                    self.width == w,
                    self.zuc@ == a1.zuc,
                    self.zuc@.wf(),
                    self.key.high <= w.mask(),
                    self.key.low <= w.mask(),
                    self.tag <= w.mask(),
                    spec_absorb_value(w, x0, fb as nat, a1.key_hi, a1.key_lo, a1.tag)
                        == spec_absorb_value(
                        w,
                        b,
                        (fb - j) as nat,
                        self.key.high,
                        self.key.low,
                        self.tag,
                    ),
                decreases fb - j,
            {
                let ghost pre_b = b;
                let ghost pre_hi = self.key.high;
                let ghost pre_lo = self.key.low;
                let ghost pre_tag = self.tag;
                xor_step(w, &mut b, &mut self.tag, &mut self.key);
                j = j + 1;
                proof {
                    assert(spec_absorb_value(
                        w,
                        pre_b,
                        (fb - j + 1) as nat,
                        pre_hi,
                        pre_lo,
                        pre_tag,
                    ) == {
                        let step = spec_bit_step(w, pre_b, pre_hi, pre_lo, pre_tag);
                        spec_absorb_value(w, step.0, (fb - j) as nat, step.1, step.2, step.3)
                    });
                }
            }
            proof {
                assert(self@ =~= spec_result.0);
            }
        } else {
            proof {
                assert(self@ =~= spec_result.0);
            }
        }
        fb
    }
}

} // verus!
