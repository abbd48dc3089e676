use sha1::{decode_hex, encode_hex, Sha1};

fn hash(data: &[u8]) -> [u8; 20] {
    let mut engine = Sha1::new();
    engine.absorb(data);
    engine.finalize()
}

fn hash_hex(data: &[u8]) -> String {
    encode_hex(&hash(data))
}

#[test]
fn digest_is_twenty_bytes() {
    assert_eq!(hash(b"").len(), 20);
    assert_eq!(hash(b"abc").len(), 20);
    assert_eq!(hash(&[0u8; 300]).len(), 20);
}

#[test]
fn empty_message() {
    assert_eq!(hash_hex(b""), "da39a3ee5e6b4b0d3255bfef95601890afd80709");
}

#[test]
fn abc_message() {
    assert_eq!(hash_hex(b"abc"), "a9993e364706816aba3e25717850c26c9cd0d89d");
}

#[test]
fn longer_message() {
    assert_eq!(
        hash_hex(b"The quick brown fox jumps over the lazy dog"),
        "2fd4e1c67a2d28fced849ee1bb76e7391b93eb12"
    );
}

#[test]
fn chunked_absorption_matches_whole() {
    let message = b"The quick brown fox jumps over the lazy dog";
    let whole = hash(message);
    for split in 0..message.len() {
        let (head, tail) = message.split_at(split);
        let mut engine = Sha1::new();
        engine.absorb(head);
        engine.absorb(tail);
        assert_eq!(engine.finalize(), whole);
    }
    let mut engine = Sha1::new();
    for byte in message.iter() {
        engine.absorb(&[*byte]);
    }
    assert_eq!(engine.finalize(), whole);
}

#[test]
fn absorbing_nothing_changes_nothing() {
    let mut engine = Sha1::new();
    engine.absorb(b"");
    engine.absorb(b"abc");
    engine.absorb(b"");
    assert_eq!(
        encode_hex(&engine.finalize()),
        "a9993e364706816aba3e25717850c26c9cd0d89d"
    );
}

#[test]
fn hashing_is_deterministic() {
    let message = b"determinism check";
    let first = hash(message);
    for _ in 0..5 {
        assert_eq!(hash(message), first);
    }
}

#[test]
fn one_byte_short_of_block_boundary() {
    assert_eq!(hash_hex(&[b'a'; 63]), "03f09f5b158a7a8cdad920bddc29b81c18a551f5");
}

#[test]
fn exactly_at_block_boundary() {
    assert_eq!(hash_hex(&[b'a'; 64]), "0098ba824b5c16427bd7a1122a5a442a25ec644d");
}

#[test]
fn one_block_past_boundary() {
    assert_eq!(hash_hex(&[b'a'; 128]), "ad5b3fdbcb526778c2839d2f151ea753995e26a0");
}

#[test]
fn one_byte_past_boundary() {
    assert_eq!(hash_hex(&[b'a'; 65]), "11655326c708d70319be2610e8a57d9a5b959d3b");
}

#[test]
fn flipping_one_input_bit_changes_many_output_bits() {
    let base = hash(b"abc");
    let mut flipped_input = *b"abc";
    flipped_input[0] ^= 1;
    let flipped = hash(&flipped_input);
    let mut differing_bits = 0u32;
    for (x, y) in base.iter().zip(flipped.iter()) {
        differing_bits += (x ^ y).count_ones();
    }
    assert!(differing_bits > 0);
    assert!(differing_bits >= 40, "only {} output bits changed", differing_bits);
}

#[test]
fn hex_round_trip_of_digests() {
    for message in [&b""[..], b"abc", b"round trip", &[0u8; 64]] {
        let digest = hash(message);
        let encoded = encode_hex(&digest);
        let decoded = decode_hex(&encoded).unwrap();
        assert_eq!(decoded, digest.to_vec());
    }
}
