//! An incremental SHA-1 digest engine, with a hex codec for digests.
//!
//! `Sha1` absorbs bytes in arbitrary chunks and, once finalized, returns
//! the 20-byte digest of everything absorbed, proved equal to the
//! mathematical definition in `model`.

pub mod engine;
pub mod hex;
pub mod model;
pub mod verify;

pub use engine::Sha1;
pub use hex::{decode_hex, encode_hex, DecodeError};
pub use model::MAX_MESSAGE_BYTES;
pub use verify::{verify_digest, VerifyError};
