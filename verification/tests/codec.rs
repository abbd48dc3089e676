use sha1::{decode_hex, encode_hex, verify_digest, DecodeError, VerifyError};

#[test]
fn encode_is_lowercase_two_chars_per_byte() {
    assert_eq!(encode_hex(&[]), "");
    assert_eq!(encode_hex(&[0x00]), "00");
    assert_eq!(encode_hex(&[0xAB, 0xCD, 0xEF]), "abcdef");
    assert_eq!(encode_hex(&[0x01, 0x23, 0x45, 0x67, 0x89]), "0123456789");
    assert_eq!(encode_hex(&[0xFF]), "ff");
}

#[test]
fn decode_accepts_both_cases() {
    assert_eq!(decode_hex("abcdef").unwrap(), vec![0xAB, 0xCD, 0xEF]);
    assert_eq!(decode_hex("ABCDEF").unwrap(), vec![0xAB, 0xCD, 0xEF]);
    assert_eq!(decode_hex("aBcDeF").unwrap(), vec![0xAB, 0xCD, 0xEF]);
    assert_eq!(decode_hex("00ff10").unwrap(), vec![0x00, 0xFF, 0x10]);
    assert_eq!(decode_hex("").unwrap(), Vec::<u8>::new());
}

#[test]
fn decode_rejects_odd_length() {
    assert_eq!(decode_hex("a"), Err(DecodeError::OddLength));
    assert_eq!(decode_hex("abc"), Err(DecodeError::OddLength));
    assert_eq!(decode_hex("00000"), Err(DecodeError::OddLength));
}

#[test]
fn decode_rejects_non_hex_characters() {
    assert_eq!(decode_hex("zz"), Err(DecodeError::InvalidDigit));
    assert_eq!(decode_hex("0g"), Err(DecodeError::InvalidDigit));
    assert_eq!(decode_hex("12 4"), Err(DecodeError::InvalidDigit));
    assert_eq!(decode_hex("..."), Err(DecodeError::OddLength));
    assert_eq!(decode_hex("münz"), Err(DecodeError::InvalidDigit));
}

#[test]
fn round_trip_arbitrary_bytes() {
    let samples: Vec<Vec<u8>> = vec![
        vec![],
        vec![0],
        vec![255],
        (0u8..=255).collect(),
        vec![0xDE, 0xAD, 0xBE, 0xEF],
    ];
    for bytes in samples {
        let encoded = encode_hex(&bytes);
        assert_eq!(encoded.len(), 2 * bytes.len());
        assert_eq!(decode_hex(&encoded).unwrap(), bytes);
    }
}

#[test]
fn verify_accepts_matching_digest() {
    assert_eq!(
        verify_digest(b"abc", "a9993e364706816aba3e25717850c26c9cd0d89d"),
        Ok(())
    );
    assert_eq!(
        verify_digest(b"", "da39a3ee5e6b4b0d3255bfef95601890afd80709"),
        Ok(())
    );
}

#[test]
fn verify_rejects_wrong_digest() {
    assert_eq!(
        verify_digest(b"abd", "a9993e364706816aba3e25717850c26c9cd0d89d"),
        Err(VerifyError::Mismatch)
    );
    assert_eq!(verify_digest(b"abc", "a9993e36"), Err(VerifyError::Mismatch));
}

#[test]
fn verify_rejects_malformed_digest() {
    assert_eq!(
        verify_digest(b"abc", "a9993e364706816aba3e25717850c26c9cd0d89"),
        Err(VerifyError::MalformedDigest(DecodeError::OddLength))
    );
    assert_eq!(
        verify_digest(b"abc", "not hex at all, forty characters long!!!"),
        Err(VerifyError::MalformedDigest(DecodeError::InvalidDigit))
    );
    assert_eq!(
        verify_digest(b"abc", "zz93e364706816aba3e25717850c26c9cd0d89d0"),
        Err(VerifyError::MalformedDigest(DecodeError::InvalidDigit))
    );
}
