//! The ZUC-256 MAC family: 32-, 64- and 128-bit tags over the ZUC-256
//! keystream, domain-separated by per-width tuning constants.

use vstd::prelude::*;

use crate::mac::gen_word;
use crate::mac::lemma_streaming_equivalence;
use crate::mac::spec_mac_finish;
use crate::mac::spec_mac_update;
use crate::mac::spec_tag_word;
use crate::mac::MacAcc;
use crate::mac::MacCore;
use crate::mac::MacView;
use crate::mac::TagWidth;
use crate::utils::U256;
use crate::zuc::zuc_after;
use crate::zuc::lemma_zuc_words_concat;
use crate::zuc256::spec_zuc256_init;
use crate::zuc256::Zuc256Keystream;

verus! {

/// d constant for 32bit MAC
pub const D_32: [u8; 16] = [
    0b010_0010,
    0b010_1111,
    0b010_0101,
    0b010_1010,
    0b110_1101,
    0b100_0000,
    0b100_0000,
    0b100_0000,
    0b100_0000,
    0b100_0000,
    0b100_0000,
    0b100_0000,
    0b100_0000,
    0b101_0010,
    0b001_0000,
    0b011_0000,
];

/// d constant for 64bit MAC
pub const D_64: [u8; 16] = [
    0b010_0011,
    0b010_1111,
    0b010_0100,
    0b010_1010,
    0b110_1101,
    0b100_0000,
    0b100_0000,
    0b100_0000,
    0b100_0000,
    0b100_0000,
    0b100_0000,
    0b100_0000,
    0b100_0000,
    0b101_0010,
    0b001_0000,
    0b011_0000,
];

/// d constant for 128bit MAC
pub const D_128: [u8; 16] = [
    0b010_0011,
    0b010_1111,
    0b010_0101,
    0b010_1010,
    0b110_1101,
    0b100_0000,
    0b100_0000,
    0b100_0000,
    0b100_0000,
    0b100_0000,
    0b100_0000,
    0b100_0000,
    0b100_0000,
    0b101_0010,
    0b001_0000,
    0b011_0000,
];

/// The tuning constants that key the generator for a given tag width.
pub open spec fn spec_zuc256_d(w: TagWidth) -> Seq<u8> {
    match w {
        TagWidth::W32 => D_32@,
        TagWidth::W64 => D_64@,
        TagWidth::W128 => D_128@,
    }
}

/// A type that can carry a MAC tag: one of u32, u64 and u128.
pub trait MacTag: Sized {
    /// The tag width this type carries.
    spec fn width() -> TagWidth;

    /// The carried value.
    spec fn tag_value(self) -> u128;

    /// The tag width, as a run-time value.
    fn tag_width() -> (w: TagWidth)
        ensures
            w == Self::width(),
    ;

    /// The tag whose value is the given (in-range) register.
    fn from_tag_bits(t: u128) -> (r: Self)
        requires
            t <= Self::width().mask(),
        ensures
            r.tag_value() == t,
    ;
}

impl MacTag for u32 {
    open spec fn width() -> TagWidth {
        TagWidth::W32
    }

    open spec fn tag_value(self) -> u128 {
        self as u128
    }

    fn tag_width() -> (w: TagWidth) {
        TagWidth::W32
    }

    fn from_tag_bits(t: u128) -> (r: u32) {
        t as u32
    }
}

impl MacTag for u64 {
    open spec fn width() -> TagWidth {
        TagWidth::W64
    }

    open spec fn tag_value(self) -> u128 {
        self as u128
    }

    fn tag_width() -> (w: TagWidth) {
        TagWidth::W64
    }

    fn from_tag_bits(t: u128) -> (r: u64) {
        t as u64
    }
}

impl MacTag for u128 {
    open spec fn width() -> TagWidth {
        TagWidth::W128
    }

    open spec fn tag_value(self) -> u128 {
        self
    }

    fn tag_width() -> (w: TagWidth) {
        TagWidth::W128
    }

    fn from_tag_bits(t: u128) -> (r: u128) {
        t
    }
}

/// The MAC state right after keying: the first tag word seeds the tag and
/// the next two form the key window, high half first.
pub open spec fn spec_zuc256_mac_init(w: TagWidth, ik: Seq<u8>, iv: Seq<u8>) -> MacView {
    let v0 = spec_zuc256_init(ik, iv, spec_zuc256_d(w));
    MacView {
        acc: MacAcc {
            zuc: zuc_after(v0, 3 * w.words()),
            key_hi: spec_tag_word(w, zuc_after(v0, w.words())),
            key_lo: spec_tag_word(w, zuc_after(v0, 2 * w.words())),
            tag: spec_tag_word(w, v0),
        },
        rem: Seq::empty(),
    }
}

/// The finished tag: the accumulator XOR the key window's high half.
pub open spec fn spec_zuc256_mac_tag(w: TagWidth, m: MacView, tail: Seq<u8>, bitlen: nat) -> u128 {
    let fin = spec_mac_finish(w, m, tail, bitlen);
    fin.0.acc.tag ^ fin.0.acc.key_hi
}

/// ZUC-256 MAC generator with a tag of type `T`.
pub struct Zuc256Mac<T: MacTag> {
    /// the accumulator, at this tag's width
    core: MacCore,
    /// the tag type the generator yields
    tag_type: core::marker::PhantomData<T>,
}

impl<T: MacTag> View for Zuc256Mac<T> {
    type V = MacView;

    closed spec fn view(&self) -> MacView {
        self.core@
    }
}

impl<T: MacTag> Zuc256Mac<T> {
    /// Valid: the accumulator is well-formed and fixed at this tag's width.
    pub closed spec fn wf(self) -> bool {
        &&& self.core.wf()
        &&& self.core.width == T::width()
    }

    /// The buffer never holds a whole chunk.
    pub proof fn lemma_wf_rem(self)
        requires
            self.wf(),
        ensures
            self@.rem.len() < T::width().bytes(),
    {
    }

    /// Create a new ZUC-256 MAC generator from the key and IV.
    #[verifier::rlimit(100)]
    #[verifier::spinoff_prover]
    pub fn new(ik: &[u8; 32], iv: &[u8; 23]) -> (r: Self)
        ensures
            r@ == spec_zuc256_mac_init(T::width(), ik@, iv@),
            r.wf(),
    {
        let w = T::tag_width();
        let d: &[u8; 16] = match w {
            TagWidth::W32 => &D_32,
            TagWidth::W64 => &D_64,
            TagWidth::W128 => &D_128,
        };
        let ghost v0 = spec_zuc256_init(ik@, iv@, d@);
        let mut zuc = Zuc256Keystream::new_with_d(ik, iv, d).into_inner();
        let tag = gen_word(&mut zuc, w);
        let key_hi = gen_word(&mut zuc, w);
        let key_lo = gen_word(&mut zuc, w);
        proof {
            lemma_zuc_words_concat(v0, w.words(), w.words());
            lemma_zuc_words_concat(v0, 2 * w.words(), w.words());
            assert(zuc@ == zuc_after(v0, 3 * w.words()));
            assert(key_hi == spec_tag_word(w, zuc_after(v0, w.words())));
            assert(key_lo == spec_tag_word(w, zuc_after(v0, 2 * w.words())));
        }
        let r = Zuc256Mac {
            core: MacCore {
                zuc,
                width: w,
                key: U256 { high: key_hi, low: key_lo },
                tag,
                rem: [0; 16],
                cnt: 0,
            },
            tag_type: core::marker::PhantomData,
        };
        proof {
            let tgt = spec_zuc256_mac_init(T::width(), ik@, iv@);
            assert(spec_zuc256_d(w) == d@);
            assert(r@.acc.zuc == tgt.acc.zuc);
            assert(r@.acc.key_hi == tgt.acc.key_hi);
            assert(r@.acc.key_lo == tgt.acc.key_lo);
            assert(r@.acc.tag == tgt.acc.tag);
            assert(r@.rem =~= tgt.rem);
            assert(r@ =~= tgt);
        }
        r
    }

    /// Update the MAC generator with the bytes of a message.
    pub fn update(&mut self, msg: &[u8])
        requires
            old(self).wf(),
        ensures
            final(self)@ == spec_mac_update(T::width(), old(self)@, msg@),
            final(self).wf(),
    {
        self.core.update(msg);
    }

    /// Finish the MAC generation over the first `bitlen` bits of `tail` and
    /// return the tag.
    pub fn finish(self, tail: &[u8], bitlen: usize) -> (r: T)
        requires
            self.wf(),
            bitlen <= tail@.len() * 8,
        ensures
            r.tag_value() == spec_zuc256_mac_tag(T::width(), self@, tail@, bitlen as nat),
    {
        let mut core = self.core;
        let _ = core.finish(tail, bitlen);
        let t = core.tag ^ core.key.high;
        proof {
            crate::mac::lemma_xor_in_mask(core.width, core.tag, core.key.high);
        }
        T::from_tag_bits(t)
    }

    /// Compute the MAC of the first `bitlen` bits of a message.
    pub fn compute(ik: &[u8; 32], iv: &[u8; 23], msg: &[u8], bitlen: usize) -> (r: T)
        requires
            bitlen <= msg@.len() * 8,
        ensures
            r.tag_value() == spec_zuc256_mac_tag(
                T::width(),
                spec_zuc256_mac_init(T::width(), ik@, iv@),
                msg@,
                bitlen as nat,
            ),
    {
        Self::new(ik, iv).finish(msg, bitlen)
    }
}

/// ZUC-256 MAC generation algorithm: the tag of type `T` over the first
/// `length` bits of `m` under the given key and IV.
pub fn zuc256_generate_mac<T: MacTag>(ik: &[u8; 32], iv: &[u8; 23], length: u32, m: &[u8]) -> (r: T)
    requires
        length <= m@.len() * 8,
    ensures
        r.tag_value() == spec_zuc256_mac_tag(
            T::width(),
            spec_zuc256_mac_init(T::width(), ik@, iv@),
            m@,
            length as nat,
        ),
{
    let bitlen = length as usize;
    Zuc256Mac::<T>::compute(ik, iv, m, bitlen)
}

/// Streaming equivalence for the ZUC-256 tags: updating with the first `p`
/// whole bytes and finishing with the rest yields the one-shot tag, for
/// every width, message, bit length and split point.
pub proof fn lemma_zuc256_streaming(w: TagWidth, m: MacView, msg: Seq<u8>, bitlen: nat, p: nat)
    requires
        m.rem.len() < w.bytes(),
        bitlen <= msg.len() * 8,
        p <= bitlen / 8,
    ensures
        spec_zuc256_mac_tag(
            w,
            spec_mac_update(w, m, msg.take(p as int)),
            msg.skip(p as int),
            (bitlen - 8 * p) as nat,
        ) == spec_zuc256_mac_tag(w, m, msg, bitlen),
{
    lemma_streaming_equivalence(w, m, msg, bitlen, p);
}

} // verus!
