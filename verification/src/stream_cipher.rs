//! The confidentiality operation: XOR a bit-length-bounded byte buffer with
//! the keystream, masking everything past the message's last bit.

use vstd::prelude::*;

use crate::keystream::KeyStream;
use crate::zuc::spec_step;
use crate::zuc::spec_word;
use crate::zuc::zuc_after;
use crate::zuc::ZucView;
use crate::zuc128::spec_zuc128_init;
use crate::zuc128::Zuc128Core;
use crate::zuc256::spec_zuc256_init;
use crate::zuc256::Zuc256Keystream;

verus! {

/// Byte `j` (big-endian, 0 is most significant) of a keystream word.
pub open spec fn spec_be_byte(w: u32, j: int) -> u8 {
    if j == 0 {
        (w >> 24) as u8
    } else if j == 1 {
        (w >> 16) as u8
    } else if j == 2 {
        (w >> 8) as u8
    } else {
        w as u8
    }
}

/// Byte `i` of the keystream drawn from state `v`, when the words are laid
/// out as big-endian bytes.
pub open spec fn keystream_byte(v: ZucView, i: int) -> u8 {
    spec_be_byte(spec_word(zuc_after(v, (i / 4) as nat)), i % 4)
}

/// Every byte of `data` XOR'd with the corresponding keystream byte.
pub open spec fn spec_xor_keystream(v: ZucView, data: Seq<u8>) -> Seq<u8> {
    Seq::new(data.len(), |i: int| data[i] ^ keystream_byte(v, i))
}

/// `data` with the byte at position `bitlen / 8` masked to its top
/// `bitlen % 8` bits (when that remainder is nonzero) and every later byte
/// zeroed.
pub open spec fn spec_mask_tail(data: Seq<u8>, bitlen: nat) -> Seq<u8> {
    Seq::new(
        data.len(),
        |i: int|
            if i < bitlen / 8 {
                data[i]
            } else if i == bitlen / 8 {
                if bitlen % 8 == 0 {
                    data[i]
                } else {
                    data[i] & (0xFFu8 << ((8 - bitlen % 8) as u8))
                }
            } else {
                0u8
            },
    )
}

/// The whole confidentiality operation on a buffer: XOR with the keystream,
/// then mask past the last message bit.
pub open spec fn spec_xor_inplace(v: ZucView, data: Seq<u8>, bitlen: nat) -> Seq<u8> {
    spec_mask_tail(spec_xor_keystream(v, data), bitlen)
}

/// Byte `j` (big-endian) of a 32-bit word.
pub(crate) fn be_byte(w: u32, j: usize) -> (b: u8)
    requires
        j < 4,
    ensures
        b == spec_be_byte(w, j as int),
{
    if j == 0 {
        (w >> 24) as u8
    } else if j == 1 {
        (w >> 16) as u8
    } else if j == 2 {
        (w >> 8) as u8
    } else {
        w as u8
    }
}

/// XORs the keystream into `data` and masks everything past bit `bitlen`.
/// Draws `data.len() / 4 + 1` words: one per full 4-byte chunk and one more
/// for the (possibly empty) final partial chunk.
pub fn xor_inplace<S: KeyStream>(zuc: &mut S, data: &mut [u8], bitlen: usize)
    requires
        old(zuc).stream().wf(),
        bitlen <= old(data)@.len() * 8,
    ensures
        final(data)@ == spec_xor_inplace(old(zuc).stream(), old(data)@, bitlen as nat),
        final(zuc).stream() == zuc_after(old(zuc).stream(), (old(data)@.len() / 4 + 1) as nat),
        final(zuc).stream().wf(),
{
    let ghost v0 = zuc.stream();
    let ghost d0 = data@;
    let len = data.len();
    let nchunks = len / 4;
    let mut c: usize = 0;
    while c < nchunks
        invariant
            c <= nchunks,
            nchunks == len / 4,
            len == data@.len(),
            data@.len() == d0.len(),
            zuc.stream() == zuc_after(v0, c as nat),
            zuc.stream().wf(),
            forall|i: int| 0 <= i < 4 * c ==> data@[i] == (d0[i] ^ keystream_byte(v0, i)),
            forall|i: int| 4 * c <= i < len ==> data@[i] == d0[i],
        decreases nchunks - c,
    {
        let k = zuc.next_key();
        proof {
            assert(zuc_after(v0, (c + 1) as nat) == spec_step(zuc_after(v0, c as nat)));
        }
        let base = c * 4;
        data[base] = data[base] ^ be_byte(k, 0);
        data[base + 1] = data[base + 1] ^ be_byte(k, 1);
        data[base + 2] = data[base + 2] ^ be_byte(k, 2);
        data[base + 3] = data[base + 3] ^ be_byte(k, 3);
        c = c + 1;
        proof {
            assert forall|i: int| 4 * (c - 1) <= i < 4 * c implies data@[i] == (d0[i]
                ^ keystream_byte(v0, i)) by {
                assert(i / 4 == c - 1 && i % 4 == i - 4 * (c - 1));
            }
        }
    }

    let k = zuc.next_key();
    proof {
        assert(zuc_after(v0, (nchunks + 1) as nat) == spec_step(zuc_after(v0, nchunks as nat)));
    }
    let base = nchunks * 4;
    let tail_len = len % 4;
    let mut j: usize = 0;
    while j < tail_len
        invariant
            j <= tail_len,
            tail_len == len % 4,
            nchunks == len / 4,
            base == nchunks * 4,
            len == data@.len(),
            data@.len() == d0.len(),
            k == spec_word(zuc_after(v0, nchunks as nat)),
            forall|i: int| 0 <= i < base + j ==> data@[i] == (d0[i] ^ keystream_byte(v0, i)),
            forall|i: int| base + j <= i < len ==> data@[i] == d0[i],
        decreases tail_len - j,
    {
        data[base + j] = data[base + j] ^ be_byte(k, j);
        j = j + 1;
        proof {
            let i = base + j - 1;
            assert(i / 4 == nchunks && i % 4 == j - 1);
        }
    }

    let ghost xored = spec_xor_keystream(v0, d0);
    proof {
        assert(forall|i: int| 0 <= i < len ==> data@[i] == xored[i]);
    }

    if bitlen % 8 != 0 {
        let idx = bitlen / 8;
        data[idx] = data[idx] & (0xFFu8 << ((8 - bitlen % 8) as u8));
    }
    let mut i2: usize = bitlen / 8 + 1;
    while i2 < len
        invariant
            bitlen / 8 + 1 <= i2 <= len || (bitlen / 8 + 1 >= len && i2 == bitlen / 8 + 1),
            len == data@.len(),
            data@.len() == xored.len(),
            forall|i: int| 0 <= i <= bitlen / 8 && i < len ==> data@[i] == spec_mask_tail(
                xored,
                bitlen as nat,
            )[i],
            forall|i: int| bitlen / 8 < i < i2 && i < len ==> data@[i] == 0,
            forall|i: int| i2 <= i < len ==> data@[i] == xored[i],
        decreases len - i2,
    {
        data[i2] = 0;
        i2 = i2 + 1;
    }
    proof {
        assert(data@ =~= spec_xor_inplace(v0, d0, bitlen as nat));
    }
}

/// XORs a copy of `data` with the keystream and masks it past bit `bitlen`.
pub(crate) fn xor_to_vec<S: KeyStream>(zuc: &mut S, data: &[u8], bitlen: usize) -> (r: Vec<u8>)
    requires
        old(zuc).stream().wf(),
        bitlen <= data@.len() * 8,
    ensures
        r@ == spec_xor_inplace(old(zuc).stream(), data@, bitlen as nat),
        final(zuc).stream() == zuc_after(old(zuc).stream(), (data@.len() / 4 + 1) as nat),
        final(zuc).stream().wf(),
{
    let mut out = vstd::slice::slice_to_vec(data);
    xor_inplace(zuc, out.as_mut_slice(), bitlen);
    out
}

/// ZUC-128 xor encryption: encrypts (or, applied again, decrypts) the first
/// `length` bits of `ibs` under the given key and IV.
pub fn zuc128_xor_encrypt(ck: &[u8; 16], iv: &[u8; 16], length: u32, ibs: &[u8]) -> (r: Vec<u8>)
    requires
        length <= ibs@.len() * 8,
    ensures
        r@ == spec_xor_inplace(spec_zuc128_init(ck@, iv@), ibs@, length as nat),
{
    let bitlen = length as usize;
    let mut zuc = Zuc128Core::new(ck, iv);
    xor_to_vec(&mut zuc, ibs, bitlen)
}

/// ZUC-256 xor encryption: encrypts (or, applied again, decrypts) the first
/// `length` bits of `ibs` under the given 32-byte key and 23-byte IV.
pub fn zuc256_xor_encrypt(ck: &[u8; 32], iv: &[u8; 23], length: u32, ibs: &[u8]) -> (r: Vec<u8>)
    requires
        length <= ibs@.len() * 8,
    ensures
        r@ == spec_xor_inplace(
            spec_zuc256_init(ck@, iv@, crate::zuc256::D@),
            ibs@,
            length as nat,
        ),
{
    let bitlen = length as usize;
    let mut zuc = Zuc256Keystream::new(ck, iv);
    xor_to_vec(&mut zuc, ibs, bitlen)
}

/// XOR-masking a byte twice with the same key byte under the same mask gives
/// the masked original; without the mask, the byte itself.
proof fn lemma_byte_mask_xor(a: u8, k: u8, m: u8)
    by (bit_vector)
    ensures
        ((((a ^ k) & m) ^ k) & m) == (a & m),
        (a ^ k) ^ k == a,
{
}

/// Involution: applying the confidentiality operation twice, from the same
/// engine state and bit length, returns the original data masked past
/// `bitlen` — so it returns the original data wherever the message reaches.
pub proof fn lemma_xor_inplace_involution(v: ZucView, data: Seq<u8>, bitlen: nat)
    ensures
        spec_xor_inplace(v, spec_xor_inplace(v, data, bitlen), bitlen) == spec_mask_tail(
            data,
            bitlen,
        ),
{
    let once = spec_xor_inplace(v, data, bitlen);
    let twice = spec_xor_inplace(v, once, bitlen);
    assert forall|i: int| 0 <= i < data.len() implies twice[i] == spec_mask_tail(data, bitlen)[i] by {
        let k = keystream_byte(v, i);
        let m = (0xFFu8 << ((8 - bitlen % 8) as u8));
        lemma_byte_mask_xor(data[i], k, m);
    }
    assert(twice =~= spec_mask_tail(data, bitlen));
}

/// Round trip: on data whose bits past `bitlen` are already masked out,
/// encrypting twice returns the data exactly.
pub proof fn lemma_xor_inplace_roundtrip(v: ZucView, data: Seq<u8>, bitlen: nat)
    requires
        data == spec_mask_tail(data, bitlen),
    ensures
        spec_xor_inplace(v, spec_xor_inplace(v, data, bitlen), bitlen) == data,
{
    lemma_xor_inplace_involution(v, data, bitlen);
}

} // verus!
