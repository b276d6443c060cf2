//! The 128-EEA3 confidentiality algorithm: ZUC-128 keyed through the
//! protocol IV built from count, bearer and direction.

use vstd::prelude::*;

use crate::keystream::KeyStream;
use crate::stream_cipher::be_byte;
use crate::stream_cipher::keystream_byte;
use crate::stream_cipher::spec_mask_tail;
use crate::zuc::spec_step;
use crate::zuc::spec_word;
use crate::zuc::zuc_after;
use crate::zuc::ZucView;
use crate::zuc128::spec_zuc128_init;
use crate::zuc128::Zuc128Core;

verus! {

/// The 16 bytes of a 128-bit value, most significant first.
pub open spec fn spec_u128_be(x: u128) -> Seq<u8> {
    seq![
        (x >> 120u128) as u8,
        (x >> 112u128) as u8,
        (x >> 104u128) as u8,
        (x >> 96u128) as u8,
        (x >> 88u128) as u8,
        (x >> 80u128) as u8,
        (x >> 72u128) as u8,
        (x >> 64u128) as u8,
        (x >> 56u128) as u8,
        (x >> 48u128) as u8,
        (x >> 40u128) as u8,
        (x >> 32u128) as u8,
        (x >> 24u128) as u8,
        (x >> 16u128) as u8,
        (x >> 8u128) as u8,
        x as u8,
    ]
}

/// The confidentiality IV layout: count (big-endian), then
/// `bearer << 3 | direction << 2`, three zero bytes, and an exact repeat of
/// those first five bytes followed by three more zero bytes.
pub open spec fn spec_eea3_iv(count: u32, bearer: u8, direction: u8) -> Seq<u8> {
    let b0 = (count >> 24) as u8;
    let b1 = (count >> 16) as u8;
    let b2 = (count >> 8) as u8;
    let b3 = count as u8;
    let b4 = (((bearer & 0x1F) << 3) | ((direction & 1) << 2)) as u8;
    seq![b0, b1, b2, b3, b4, 0, 0, 0, b0, b1, b2, b3, b4, 0, 0, 0]
}

/// The masked key bytes the confidentiality algorithm XORs into the message:
/// `4 * ceil(length / 32)` keystream bytes, masked past bit `length`.
pub open spec fn spec_eea3_keys(v: ZucView, length: nat) -> Seq<u8> {
    let l = length / 32 + if length % 32 != 0 {
        1nat
    } else {
        0nat
    };
    spec_mask_tail(Seq::new(4 * l, |i: int| keystream_byte(v, i)), length)
}

/// The encrypted bit stream: each byte XOR'd with its masked key byte, and
/// bytes past the generated key bytes returned unchanged.
pub open spec fn spec_encryption_xor(v: ZucView, data: Seq<u8>, length: nat) -> Seq<u8> {
    let keys = spec_eea3_keys(v, length);
    Seq::new(
        data.len(),
        |i: int|
            if i < keys.len() {
                data[i] ^ keys[i]
            } else {
                data[i]
            },
    )
}

/// XOR encryption against the engine state loaded from the given key and IV
/// bytes.
#[verifier::rlimit(50)]
fn xor_with_loaded_key(ck: &[u8; 16], iv: &[u8; 16], length: u32, ibs: &[u8]) -> (r: Vec<u8>)
    ensures
        r@ == spec_encryption_xor(spec_zuc128_init(ck@, iv@), ibs@, length as nat),
{
    let ghost v0 = spec_zuc128_init(ck@, iv@);
    let l: u32 = length / 32 + if length % 32 != 0 {
        1u32
    } else {
        0u32
    };
    let mut zuc = Zuc128Core::new(ck, iv);
    let mut keys: Vec<u8> = Vec::new();
    let mut c: u32 = 0;
    while c < l
        invariant
            c <= l,
            l == length / 32 + if length % 32 != 0 {
                1u32
            } else {
                0u32
            },
            keys@.len() == 4 * c,
            zuc@ == zuc_after(v0, c as nat),
            zuc@.wf(),
            forall|i: int| 0 <= i < 4 * c ==> keys@[i] == keystream_byte(v0, i),
        decreases l - c,
    {
        let z = zuc.generate();
        proof {
            assert(zuc_after(v0, (c + 1) as nat) == spec_step(zuc_after(v0, c as nat)));
        }
        keys.push(be_byte(z, 0));
        keys.push(be_byte(z, 1));
        keys.push(be_byte(z, 2));
        keys.push(be_byte(z, 3));
        c = c + 1;
        proof {
            assert forall|i: int| 4 * (c - 1) <= i < 4 * c implies keys@[i] == keystream_byte(
                v0,
                i,
            ) by {
                assert(i / 4 == c - 1 && i % 4 == i - 4 * (c - 1));
            }
        }
    }
    let bitlen = length as usize;
    if length % 8 != 0 {
        let idx = bitlen / 8;
        assert(idx < keys@.len());
        let masked = keys[idx] & (0xFFu8 << ((8 - bitlen % 8) as u8));
        keys[idx] = masked;
    }
    let mut i2: usize = bitlen / 8 + 1;
    let keys_len = keys.len();
    while i2 < keys_len
        invariant
            bitlen / 8 + 1 <= i2,
            keys_len == keys@.len(),
            keys_len == 4 * (length / 32 + if length % 32 != 0 {
                1int
            } else {
                0int
            }),
            bitlen == length,
            forall|i: int|
                0 <= i <= bitlen / 8 && i < keys_len ==> keys@[i] == spec_eea3_keys(
                    v0,
                    length as nat,
                )[i],
            forall|i: int| bitlen / 8 < i < i2 && i < keys_len ==> keys@[i] == 0,
            forall|i: int| i2 <= i < keys_len ==> keys@[i] == keystream_byte(v0, i),
        decreases keys_len - i2,
    {
        keys[i2] = 0;
        i2 = i2 + 1;
    }
    proof {
        assert(keys@ =~= spec_eea3_keys(v0, length as nat));
    }

    let mut res = vstd::slice::slice_to_vec(ibs);
    let n = if res.len() < keys_len {
        res.len()
    } else {
        keys_len
    };
    let mut i3: usize = 0;
    while i3 < n
        invariant
            i3 <= n,
            n <= res@.len(),
            n <= keys@.len(),
            res@.len() == ibs@.len(),
            keys@ == spec_eea3_keys(v0, length as nat),
            n == if ibs@.len() < keys@.len() {
                ibs@.len() as int
            } else {
                keys@.len() as int
            },
            forall|i: int| 0 <= i < i3 ==> res@[i] == (ibs@[i] ^ keys@[i]),
            forall|i: int| i3 <= i < res@.len() ==> res@[i] == ibs@[i],
        decreases n - i3,
    {
        let x = res[i3] ^ keys[i3];
        res[i3] = x;
        i3 = i3 + 1;
    }
    proof {
        let keysg = spec_eea3_keys(v0, length as nat);
        assert forall|i: int| 0 <= i < res@.len() implies res@[i] == spec_encryption_xor(
            v0,
            ibs@,
            length as nat,
        )[i] by {
            if i < keysg.len() {
                assert(i < n);
            } else {
                assert(n <= i);
            }
        }
        assert(res@ =~= spec_encryption_xor(v0, ibs@, length as nat));
    }
    res
}

/// The 16 big-endian bytes of a 128-bit value.
fn u128_be_bytes(x: u128) -> (b: [u8; 16])
    ensures
        b@ == spec_u128_be(x),
{
    let b = [
        (x >> 120u128) as u8,
        (x >> 112u128) as u8,
        (x >> 104u128) as u8,
        (x >> 96u128) as u8,
        (x >> 88u128) as u8,
        (x >> 80u128) as u8,
        (x >> 72u128) as u8,
        (x >> 64u128) as u8,
        (x >> 56u128) as u8,
        (x >> 48u128) as u8,
        (x >> 40u128) as u8,
        (x >> 32u128) as u8,
        (x >> 24u128) as u8,
        (x >> 16u128) as u8,
        (x >> 8u128) as u8,
        x as u8,
    ];
    proof {
        assert(b@ =~= spec_u128_be(x));
    }
    b
}

/// zuc xor encryption algorithm: XORs the first `length` bits of `ibs` with
/// the ZUC-128 keystream keyed by `ck` and `iv`, both taken big-endian.
pub fn encryption_xor(ck: u128, iv: u128, length: u32, ibs: &[u8]) -> (r: Vec<u8>)
    ensures
        r@ == spec_encryption_xor(
            spec_zuc128_init(spec_u128_be(ck), spec_u128_be(iv)),
            ibs@,
            length as nat,
        ),
{
    let ckb = u128_be_bytes(ck);
    let ivb = u128_be_bytes(iv);
    xor_with_loaded_key(&ckb, &ivb, length, ibs)
}

/// eea3-128 privacy algorithm (3GPP LTE): builds the confidentiality IV from
/// count, bearer and direction, then XOR-encrypts the first `length` bits.
pub fn eea3_128(count: u32, bearer: u32, direction: u32, ck: u128, length: u32, ibs: &[u8]) -> (r:
    Vec<u8>)
    ensures
        r@ == spec_encryption_xor(
            spec_zuc128_init(
                spec_u128_be(ck),
                spec_eea3_iv(count, (bearer & 0x1F) as u8, (direction & 1) as u8),
            ),
            ibs@,
            length as nat,
        ),
{
    let bearer8 = (bearer as u8) & 0x1F;
    let direction8 = (direction as u8) & 0x1;
    let ckb = u128_be_bytes(ck);
    let ivb = eea3_iv_bytes(count, bearer8, direction8);
    proof {
        assert((bearer as u8) & 0x1F == (bearer & 0x1F) as u8) by (bit_vector);
        assert((direction as u8) & 0x1 == (direction & 1) as u8) by (bit_vector);
        assert(bearer8 & 0x1F == bearer8) by (bit_vector)
            requires
                bearer8 == (bearer as u8) & 0x1F,
        ;
        assert(direction8 & 1 == direction8) by (bit_vector)
            requires
                direction8 == (direction as u8) & 0x1,
        ;
    }
    xor_with_loaded_key(&ckb, &ivb, length, ibs)
}

/// The confidentiality IV bytes for the given session parameters.
fn eea3_iv_bytes(count: u32, bearer: u8, direction: u8) -> (iv: [u8; 16])
    ensures
        iv@ == spec_eea3_iv(count, bearer & 0x1F, direction & 1),
{
    let b0 = (count >> 24) as u8;
    let b1 = (count >> 16) as u8;
    let b2 = (count >> 8) as u8;
    let b3 = count as u8;
    let b4 = ((bearer & 0x1F) << 3) | ((direction & 1) << 2);
    let iv = [b0, b1, b2, b3, b4, 0, 0, 0, b0, b1, b2, b3, b4, 0, 0, 0];
    proof {
        assert((bearer & 0x1F) & 0x1F == bearer & 0x1F) by (bit_vector);
        assert((direction & 1) & 1 == direction & 1) by (bit_vector);
        assert(iv@ =~= spec_eea3_iv(count, bearer & 0x1F, direction & 1));
    }
    iv
}

/// 128-EEA3 keystream generator.
pub struct Eea3Keystream {
    /// the keyed ZUC-128 core
    pub(crate) core: Zuc128Core,
}

impl View for Eea3Keystream {
    type V = ZucView;

    closed spec fn view(&self) -> ZucView {
        self.core@
    }
}

impl Eea3Keystream {
    /// Creates a 128-EEA3 keystream generator for the given session
    /// parameters.
    pub fn new(count: u32, bearer: u8, direction: u8, ck: &[u8; 16]) -> (r: Self)
        ensures
            r@ == spec_zuc128_init(ck@, spec_eea3_iv(count, bearer & 0x1F, direction & 1)),
            r@.wf(),
    {
        let iv = eea3_iv_bytes(count, bearer, direction);
        Eea3Keystream { core: Zuc128Core::new(ck, &iv) }
    }

    /// Generates the next 32-bit word in the 128-EEA3 keystream.
    pub fn generate(&mut self) -> (z: u32)
        requires
            old(self)@.wf(),
        ensures
            z == spec_word(old(self)@),
            final(self)@ == spec_step(old(self)@),
            final(self)@.wf(),
    {
        self.core.generate()
    }
}

impl KeyStream for Eea3Keystream {
    open spec fn stream(&self) -> ZucView {
        self@
    }

    fn next_key(&mut self) -> (z: u32) {
        self.generate()
    }
}

/// XOR'ing twice with the same byte is the identity.
proof fn lemma_byte_xor_twice(a: u8, k: u8)
    by (bit_vector)
    ensures
        (a ^ k) ^ k == a,
{
}

/// Involution: the confidentiality operation applied twice, with the same
/// engine state and bit length, returns the original data exactly — for
/// every input, of any length.
pub proof fn lemma_encryption_xor_involution(v: ZucView, data: Seq<u8>, length: nat)
    ensures
        spec_encryption_xor(v, spec_encryption_xor(v, data, length), length) == data,
{
    let once = spec_encryption_xor(v, data, length);
    let twice = spec_encryption_xor(v, once, length);
    assert forall|i: int| 0 <= i < data.len() implies twice[i] == data[i] by {
        let keys = spec_eea3_keys(v, length);
        if i < keys.len() {
            lemma_byte_xor_twice(data[i], keys[i]);
        }
    }
    assert(twice =~= data);
}

} // verus!
