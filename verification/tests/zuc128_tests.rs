//! ZUC-128 keystream test vectors, determinism and involution checks.

use zuc::stream_cipher::zuc128_xor_encrypt;
use zuc::zuc128::Zuc128Core;
use zuc::zuc128_mac::zuc128_generate_mac;

struct TestSet {
    key: [u8; 16],
    iv: [u8; 16],
    output: Vec<Option<u32>>,
}

impl TestSet {
    fn run(&self) {
        let mut core = Zuc128Core::new(&self.key, &self.iv);
        for o in &self.output {
            let z = core.generate();
            if let Some(o) = o {
                assert_eq!(z, *o);
            }
        }
    }
}

#[test]
fn test_set_1() {
    TestSet {
        key: [0; 16],
        iv: [0; 16],
        output: vec![Some(0x27be_de74), Some(0x0180_82da)],
    }
    .run();
}

#[test]
fn test_set_2() {
    TestSet {
        key: [0xff; 16],
        iv: [0xff; 16],
        output: vec![Some(0x0657_cfa0), Some(0x7096_398b)],
    }
    .run();
}

#[test]
fn test_set_3() {
    TestSet {
        key: [
            0x3d, 0x4c, 0x4b, 0xe9, 0x6a, 0x82, 0xfd, 0xae, 0xb5, 0x8f, 0x64, 0x1d, 0xb1, 0x7b,
            0x45, 0x5b,
        ],
        iv: [
            0x84, 0x31, 0x9a, 0xa8, 0xde, 0x69, 0x15, 0xca, 0x1f, 0x6b, 0xda, 0x6b, 0xfb, 0xd8,
            0xc7, 0x66,
        ],
        output: vec![Some(0x14f1_c272), Some(0x3279_c419)],
    }
    .run();
}

#[test]
fn test_set_4() {
    let mut output = vec![None; 2000];
    output[0] = Some(0xed44_00e7);
    output[1] = Some(0x0633_e5c5);
    output[1999] = Some(0x7a57_4cdb);
    TestSet {
        key: [
            0x4d, 0x32, 0x0b, 0xfa, 0xd4, 0xc2, 0x85, 0xbf, 0xd6, 0xb8, 0xbd, 0x00, 0xf3, 0x9d,
            0x8b, 0x41,
        ],
        iv: [
            0x52, 0x95, 0x9d, 0xab, 0xa0, 0xbf, 0x17, 0x6e, 0xce, 0x2d, 0xc3, 0x15, 0x04, 0x9e,
            0xb5, 0x74,
        ],
        output,
    }
    .run();
}

#[test]
fn two_generators_agree() {
    let key: [u8; 16] = [
        0x3d, 0x4c, 0x4b, 0xe9, 0x6a, 0x82, 0xfd, 0xae, 0xb5, 0x8f, 0x64, 0x1d, 0xb1, 0x7b, 0x45,
        0x5b,
    ];
    let iv: [u8; 16] = [
        0x84, 0x31, 0x9a, 0xa8, 0xde, 0x69, 0x15, 0xca, 0x1f, 0x6b, 0xda, 0x6b, 0xfb, 0xd8, 0xc7,
        0x66,
    ];
    let mut a = Zuc128Core::new(&key, &iv);
    let mut b = Zuc128Core::new(&key, &iv);
    for _ in 0..100 {
        assert_eq!(a.generate(), b.generate());
    }
}

#[test]
fn xor_encrypt_involution() {
    let ck: [u8; 16] = [
        0x17, 0x3d, 0x14, 0xba, 0x50, 0x03, 0x73, 0x1d, 0x7a, 0x60, 0x04, 0x94, 0x70, 0xf0, 0x0a,
        0x29,
    ];
    let iv: [u8; 16] = [
        0x52, 0x95, 0x9d, 0xab, 0xa0, 0xbf, 0x17, 0x6e, 0xce, 0x2d, 0xc3, 0x15, 0x04, 0x9e, 0xb5,
        0x74,
    ];
    let data: Vec<u8> = (0u32..64).map(|i| (i * 37 % 251) as u8).collect();

    // a whole number of bytes: the round trip returns the data exactly
    let enc = zuc128_xor_encrypt(&ck, &iv, 512, &data);
    assert_ne!(enc, data);
    let dec = zuc128_xor_encrypt(&ck, &iv, 512, &enc);
    assert_eq!(dec, data);

    // a partial bit length: the round trip returns the data masked past
    // the last message bit
    let enc = zuc128_xor_encrypt(&ck, &iv, 100, &data);
    let dec = zuc128_xor_encrypt(&ck, &iv, 100, &enc);
    for i in 0..12 {
        assert_eq!(dec[i], data[i]);
    }
    assert_eq!(dec[12], data[12] & 0xF0);
    for i in 13..64 {
        assert_eq!(dec[i], 0);
    }
}

#[test]
fn xor_encrypt_matches_keystream() {
    let ck: [u8; 16] = [0; 16];
    let iv: [u8; 16] = [0; 16];
    let data: [u8; 8] = [0; 8];
    let out = zuc128_xor_encrypt(&ck, &iv, 64, &data);
    // encrypting zeros with the zero key exposes the first two keystream
    // words: 0x27BEDE74 0x018082DA
    assert_eq!(out, vec![0x27, 0xbe, 0xde, 0x74, 0x01, 0x80, 0x82, 0xda]);
}

#[test]
fn zuc128_mac_protocol_vector() {
    // the 128-EIA3 test set 1 vector, keyed through the integrity IV layout:
    // count = 0, bearer = 0, direction = 0 gives the all-zero IV
    let ik: [u8; 16] = [0; 16];
    let iv: [u8; 16] = [0; 16];
    let mac = zuc128_generate_mac(&ik, &iv, 1, &[0, 0, 0, 0]);
    assert_eq!(mac, 0xc8a9_595e);
}

#[test]
fn zuc128_mac_streaming_split() {
    let ik: [u8; 16] = [0x55; 16];
    let iv: [u8; 16] = [0xaa; 16];
    let msg: Vec<u8> = (0u32..40).map(|i| (i * 11 % 256) as u8).collect();
    let one_shot = zuc::zuc128_mac::Zuc128Mac::compute(&ik, &iv, &msg, 317);
    for p in 0..=317 / 8 {
        let mut mac = zuc::zuc128_mac::Zuc128Mac::new(&ik, &iv);
        mac.update(&msg[..p]);
        let tag = mac.finish(&msg[p..], 317 - 8 * p);
        assert_eq!(tag, one_shot);
    }
}
