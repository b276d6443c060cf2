//! ZUC stream-cipher and message-authentication primitives.
//!
//! The crate provides the ZUC-128 and ZUC-256 keystream generators, the
//! confidentiality (XOR) algorithms built on them, the width-polymorphic
//! bit-sliding MAC, and the 128-EEA3 / 128-EIA3 protocol wrappers.

pub mod eea3;
pub mod eia3;
pub mod keystream;
pub mod mac;
pub mod stream_cipher;
pub mod utils;
pub mod zuc;
pub mod zuc128;
pub mod zuc128_mac;
pub mod zuc256;
pub mod zuc256_mac;

pub use eea3::eea3_128;
pub use eea3::encryption_xor;
pub use eea3::Eea3Keystream;
pub use eia3::Eia3Mac;
pub use keystream::KeyStream;
pub use mac::MacCore;
pub use mac::TagWidth;
pub use stream_cipher::xor_inplace;
pub use stream_cipher::zuc128_xor_encrypt;
pub use stream_cipher::zuc256_xor_encrypt;
pub use utils::add;
pub use utils::rol;
pub use utils::U256;
pub use zuc128::Zuc128Core;
pub use zuc128_mac::zuc128_generate_mac;
pub use zuc128_mac::Zuc128Mac;
pub use zuc256::Zuc256Keystream;
pub use zuc256_mac::zuc256_generate_mac;
pub use zuc256_mac::MacTag;
pub use zuc256_mac::Zuc256Mac;
