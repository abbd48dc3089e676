//! Checking a message against a caller-supplied hex digest, keeping a
//! malformed digest string distinct from a digest that simply does not
//! match.

use vstd::prelude::*;

use crate::engine::Sha1;
use crate::hex::{decode_hex, hex_decoding, is_hex_string, DecodeError};
use crate::model::{digest_of, MAX_MESSAGE_BYTES};

verus! {

/// Why a message failed verification against an expected digest.
#[derive(Clone, Copy, Debug, PartialEq, Eq, Structural)]
pub enum VerifyError {
    /// The expected digest is not a well-formed hex string.
    MalformedDigest(DecodeError),
    /// The expected digest is well-formed hex but is not the digest of
    /// the message.
    Mismatch,
}

/// Recomputes the digest of `message` and compares it with the digest
/// that `expected_hex` spells. A malformed hex string and a wrong
/// digest are reported as distinct errors.
pub fn verify_digest(message: &[u8], expected_hex: &str) -> (r: Result<(), VerifyError>)
    requires
        message@.len() <= MAX_MESSAGE_BYTES,
    ensures
        match r {
            Ok(()) => is_hex_string(expected_hex@) && hex_decoding(expected_hex@) == digest_of(
                message@,
            ),
            Err(VerifyError::Mismatch) => is_hex_string(expected_hex@) && hex_decoding(
                expected_hex@,
            ) != digest_of(message@),
            Err(VerifyError::MalformedDigest(DecodeError::OddLength)) => expected_hex@.len() % 2
                == 1,
            Err(VerifyError::MalformedDigest(DecodeError::InvalidDigit)) => expected_hex@.len() % 2
                == 0 && !is_hex_string(expected_hex@),
        },
{
    let expected = match decode_hex(expected_hex) {
        Ok(bytes) => bytes,
        Err(e) => {
            return Err(VerifyError::MalformedDigest(e));
        },
    };
    let mut engine = Sha1::new();
    engine.absorb(message);
    let digest = engine.finalize();
    if bytes_equal(expected.as_slice(), digest.as_slice()) {
        Ok(())
    } else {
        Err(VerifyError::Mismatch)
    }
}

/// Whether two byte slices hold the same bytes.
fn bytes_equal(a: &[u8], b: &[u8]) -> (r: bool)
    ensures
        r == (a@ == b@),
{
    if a.len() != b.len() {
        proof {
            assert(a@.len() != b@.len());
        }
        return false;
    }
    let mut i: usize = 0;
    while i < a.len()
        invariant
            i <= a@.len(),
            a@.len() == b@.len(),
            forall|t: int| 0 <= t < i ==> a@[t] == b@[t],
        decreases a@.len() - i,
    {
        if a[i] != b[i] {
            return false;
        }
        i = i + 1;
    }
    proof {
        assert(a@ =~= b@);
    }
    true
}

} // verus!
