//! A Vigenère cipher over the lowercase Latin alphabet `a`..`z`: encryption,
//! decryption and random key generation, with verified contracts.

pub mod alphabet;
pub mod cipher;
pub mod error;
pub mod key;
mod strings;

pub use alphabet::{char_to_num, num_to_char};
pub use cipher::{decrypt, encrypt};
pub use error::CipherError;
pub use key::{extend_key, random_key};
