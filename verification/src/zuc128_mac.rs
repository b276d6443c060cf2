//! The ZUC-128 MAC: the bit-sliding accumulator over the ZUC-128 keystream,
//! with a 32-bit tag.

use vstd::prelude::*;

use crate::mac::lemma_streaming_equivalence;
use crate::mac::spec_mac_finish;
use crate::mac::spec_mac_update;
use crate::mac::MacAcc;
use crate::mac::MacCore;
use crate::mac::MacView;
use crate::mac::TagWidth;
use crate::utils::U256;
use crate::zuc::spec_word;
use crate::zuc::zuc_after;
use crate::zuc128::spec_zuc128_init;
use crate::zuc128::Zuc128Core;

verus! {

/// The MAC state right after keying: the first two keystream words form the
/// key window (high half first) and the tag starts at zero.
pub open spec fn spec_zuc128_mac_init(ik: Seq<u8>, iv: Seq<u8>) -> MacView {
    let v0 = spec_zuc128_init(ik, iv);
    MacView {
        acc: MacAcc {
            zuc: zuc_after(v0, 2),
            key_hi: spec_word(v0) as u128,
            key_lo: spec_word(zuc_after(v0, 1)) as u128,
            tag: 0,
        },
        rem: Seq::empty(),
    }
}

/// The finished 32-bit tag: the accumulator XOR the window's high half, then
/// XOR the window's low half when the final step consumed no bits, or one
/// freshly drawn keystream word otherwise.
pub open spec fn spec_zuc128_mac_finish(m: MacView, tail: Seq<u8>, bitlen: nat) -> u32 {
    let fin = spec_mac_finish(TagWidth::W32, m, tail, bitlen);
    let t = fin.0.acc.tag ^ fin.0.acc.key_hi;
    if fin.1 == 0 {
        (t ^ fin.0.acc.key_lo) as u32
    } else {
        (t ^ (spec_word(fin.0.acc.zuc) as u128)) as u32
    }
}

/// ZUC-128 MAC generator.
pub struct Zuc128Mac {
    /// the accumulator, at width 32
    core: MacCore,
}

impl View for Zuc128Mac {
    type V = MacView;

    closed spec fn view(&self) -> MacView {
        self.core@
    }
}

impl Zuc128Mac {
    /// Valid: the accumulator is well-formed and fixed at width 32.
    pub closed spec fn wf(self) -> bool {
        &&& self.core.wf()
        &&& self.core.width == TagWidth::W32
    }

    /// The buffer never holds a whole chunk.
    pub proof fn lemma_wf_rem(self)
        requires
            self.wf(),
        ensures
            self@.rem.len() < 4,
    {
    }

    /// Create a new ZUC-128 MAC generator from the key and IV.
    pub fn new(ik: &[u8; 16], iv: &[u8; 16]) -> (r: Self)
        ensures
            r@ == spec_zuc128_mac_init(ik@, iv@),
            r.wf(),
    {
        let ghost v0 = spec_zuc128_init(ik@, iv@);
        let mut zuc = Zuc128Core::new(ik, iv).into_inner();
        let a = zuc.generate();
        let b = zuc.generate();
        proof {
            assert(zuc_after(v0, 1) == crate::zuc::spec_step(zuc_after(v0, 0)));
            assert(zuc_after(v0, 2) == crate::zuc::spec_step(zuc_after(v0, 1)));
        }
        let r = Zuc128Mac {
            core: MacCore {
                zuc,
                width: TagWidth::W32,
                key: U256 { high: a as u128, low: b as u128 },
                tag: 0,
                rem: [0; 16],
                cnt: 0,
            },
        };
        proof {
            assert(r@.rem =~= Seq::<u8>::empty());
            assert(r@ =~= spec_zuc128_mac_init(ik@, iv@));
        }
        r
    }

    /// Update the MAC generator with the bytes of a message.
    pub fn update(&mut self, msg: &[u8])
        requires
            old(self).wf(),
        ensures
            final(self)@ == spec_mac_update(TagWidth::W32, old(self)@, msg@),
            final(self).wf(),
    {
        self.core.update(msg);
    }

    /// Finish the MAC generation over the first `bitlen` bits of `tail` and
    /// return the tag.
    pub fn finish(self, tail: &[u8], bitlen: usize) -> (r: u32)
        requires
            self.wf(),
            bitlen <= tail@.len() * 8,
        ensures
            r == spec_zuc128_mac_finish(self@, tail@, bitlen as nat),
    {
        let mut core = self.core;
        let fb = core.finish(tail, bitlen);
        let mut tag = core.tag ^ core.key.high;
        if fb == 0 {
            tag = tag ^ core.key.low;
        } else {
            tag = tag ^ (core.zuc.generate() as u128);
        }
        tag as u32
    }

    /// Compute the MAC of the first `bitlen` bits of a message.
    pub fn compute(ik: &[u8; 16], iv: &[u8; 16], msg: &[u8], bitlen: usize) -> (r: u32)
        requires
            bitlen <= msg@.len() * 8,
        ensures
            r == spec_zuc128_mac_finish(spec_zuc128_mac_init(ik@, iv@), msg@, bitlen as nat),
    {
        Self::new(ik, iv).finish(msg, bitlen)
    }
}

/// ZUC-128 MAC generation algorithm: the 32-bit tag over the first `length`
/// bits of `m` under the given key and IV.
pub fn zuc128_generate_mac(ik: &[u8; 16], iv: &[u8; 16], length: u32, m: &[u8]) -> (r: u32)
    requires
        length <= m@.len() * 8,
    ensures
        r == spec_zuc128_mac_finish(spec_zuc128_mac_init(ik@, iv@), m@, length as nat),
{
    let bitlen = length as usize;
    Zuc128Mac::compute(ik, iv, m, bitlen)
}

/// Streaming equivalence for the ZUC-128 tag: updating with the first `p`
/// whole bytes and finishing with the rest yields the one-shot tag, for
/// every message, bit length and split point.
pub proof fn lemma_zuc128_streaming(m: MacView, msg: Seq<u8>, bitlen: nat, p: nat)
    requires
        m.rem.len() < 4,
        bitlen <= msg.len() * 8,
        p <= bitlen / 8,
    ensures
        spec_zuc128_mac_finish(
            spec_mac_update(TagWidth::W32, m, msg.take(p as int)),
            msg.skip(p as int),
            (bitlen - 8 * p) as nat,
        ) == spec_zuc128_mac_finish(m, msg, bitlen),
{
    lemma_streaming_equivalence(TagWidth::W32, m, msg, bitlen, p);
}

} // verus!
