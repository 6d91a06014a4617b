//! zqlu: a compact, copy-and-paste friendly text format for public keys.
//!
//! A key is the identifier `zq.lu`, one character naming the key type, and
//! the Base62 encoding of the key bits followed by a CRC-16 checksum, e.g.
//! `zq.luAAhI0TjjRFd5K5vfy4hig23m7bppmotzOLVIkwFnPMfVWDp`.
//!
//! [`Zqlu::new`] reads such a key, [`Zqlu::from_public_key`] writes one, and
//! [`parse`] reads a public key given as OpenSSH text, as a zqlu key, or as a
//! PEM public key document.

pub mod base62;
pub mod checksum;
pub mod convert;
pub mod curve;
pub mod error;
pub mod key;
pub mod key_type;
pub mod parse;
pub mod pem;
pub mod rsa;
pub mod text;
pub mod transform;
pub mod zqlu;

pub use error::{ParsePublicKeyError, ZqluError};
pub use key::{KeyMaterial, SshKey};
pub use key_type::{EcdsaCurve, ZqluKeyType};
pub use parse::parse;
pub use transform::{transform, TransformError};
pub use zqlu::Zqlu;
