//! The 128-EIA3 integrity algorithm: the ZUC-128 MAC keyed through the
//! protocol IV built from count, bearer and direction.

use vstd::prelude::*;

use crate::mac::spec_mac_update;
use crate::mac::MacView;
use crate::mac::TagWidth;
use crate::zuc128_mac::spec_zuc128_mac_finish;
use crate::zuc128_mac::spec_zuc128_mac_init;
use crate::zuc128_mac::Zuc128Mac;

verus! {

/// The integrity IV layout: count (big-endian), then `bearer << 3`, three
/// zero bytes, then a repeat of those five bytes with the direction bit
/// XOR'd into the top of bytes 8 and 14.
pub open spec fn spec_eia3_iv(count: u32, bearer: u8, direction: u8) -> Seq<u8> {
    let b0 = (count >> 24) as u8;
    let b1 = (count >> 16) as u8;
    let b2 = (count >> 8) as u8;
    let b3 = count as u8;
    let b4 = ((bearer & 0x1F) << 3) as u8;
    let dbit = ((direction & 1) << 7) as u8;
    seq![b0, b1, b2, b3, b4, 0, 0, 0, b0 ^ dbit, b1, b2, b3, b4, 0, dbit, 0]
}

/// 128-EIA3 MAC generator.
pub struct Eia3Mac {
    /// the keyed ZUC-128 MAC
    mac: Zuc128Mac,
}

impl View for Eia3Mac {
    type V = MacView;

    closed spec fn view(&self) -> MacView {
        self.mac@
    }
}

/// The integrity IV bytes for the given session parameters.
fn eia3_iv_bytes(count: u32, bearer: u8, direction: u8) -> (iv: [u8; 16])
    ensures
        iv@ == spec_eia3_iv(count, bearer & 0x1F, direction & 1),
{
    let b0 = (count >> 24) as u8;
    let b1 = (count >> 16) as u8;
    let b2 = (count >> 8) as u8;
    let b3 = count as u8;
    let b4 = (bearer & 0x1F) << 3;
    let dbit = (direction & 1) << 7;
    let iv = [b0, b1, b2, b3, b4, 0, 0, 0, b0 ^ dbit, b1, b2, b3, b4, 0, dbit, 0];
    proof {
        assert((bearer & 0x1F) & 0x1F == bearer & 0x1F) by (bit_vector);
        assert((direction & 1) & 1 == direction & 1) by (bit_vector);
        assert(iv@ =~= spec_eia3_iv(count, bearer & 0x1F, direction & 1));
    }
    iv
}

impl Eia3Mac {
    /// Valid: the inner MAC is well-formed.
    pub closed spec fn wf(self) -> bool {
        self.mac.wf()
    }

    /// Create a 128-EIA3 MAC generator for the given session parameters.
    pub fn new(count: u32, bearer: u8, direction: u8, ik: &[u8; 16]) -> (r: Self)
        ensures
            r@ == spec_zuc128_mac_init(ik@, spec_eia3_iv(count, bearer & 0x1F, direction & 1)),
            r.wf(),
    {
        let iv = eia3_iv_bytes(count, bearer, direction);
        Eia3Mac { mac: Zuc128Mac::new(ik, &iv) }
    }

    /// Update the MAC generator with the bytes of a message.
    pub fn update(&mut self, msg: &[u8])
        requires
            old(self).wf(),
        ensures
            final(self)@ == spec_mac_update(TagWidth::W32, old(self)@, msg@),
            final(self).wf(),
    {
        self.mac.update(msg);
    }

    /// Finish the MAC generation over the first `bitlen` bits of `tail` and
    /// return the 32-bit tag.
    pub fn finish(self, tail: &[u8], bitlen: usize) -> (r: u32)
        requires
            self.wf(),
            bitlen <= tail@.len() * 8,
        ensures
            r == spec_zuc128_mac_finish(self@, tail@, bitlen as nat),
    {
        self.mac.finish(tail, bitlen)
    }

    /// Compute the MAC of the first `bitlen` bits of a message.
    pub fn compute(count: u32, bearer: u8, direction: u8, ik: &[u8; 16], msg: &[u8], bitlen: usize)
        -> (r: u32)
        requires
            bitlen <= msg@.len() * 8,
        ensures
            r == spec_zuc128_mac_finish(
                spec_zuc128_mac_init(ik@, spec_eia3_iv(count, bearer & 0x1F, direction & 1)),
                msg@,
                bitlen as nat,
            ),
    {
        Self::new(count, bearer, direction, ik).finish(msg, bitlen)
    }
}

} // verus!
