use mailin::sasl::{b64_decode, b64_encode, decode_sasl_plain};

#[test]
fn encode_known_vectors() {
    assert_eq!(b64_encode(b""), b"".to_vec());
    assert_eq!(b64_encode(b"f"), b"Zg==".to_vec());
    assert_eq!(b64_encode(b"fo"), b"Zm8=".to_vec());
    assert_eq!(b64_encode(b"foo"), b"Zm9v".to_vec());
    assert_eq!(b64_encode(b"foob"), b"Zm9vYg==".to_vec());
    assert_eq!(b64_encode(b"fooba"), b"Zm9vYmE=".to_vec());
    assert_eq!(b64_encode(b"foobar"), b"Zm9vYmFy".to_vec());
}

#[test]
fn encode_sasl_plain_payload() {
    assert_eq!(b64_encode(b"\x00alice\x00secret"), b"AGFsaWNlAHNlY3JldA==".to_vec());
}

#[test]
fn decode_known_vectors() {
    assert_eq!(b64_decode(b""), Some(b"".to_vec()));
    assert_eq!(b64_decode(b"Zg=="), Some(b"f".to_vec()));
    assert_eq!(b64_decode(b"Zm8="), Some(b"fo".to_vec()));
    assert_eq!(b64_decode(b"Zm9v"), Some(b"foo".to_vec()));
    assert_eq!(b64_decode(b"VXNlcm5hbWU6"), Some(b"Username:".to_vec()));
    assert_eq!(b64_decode(b"UGFzc3dvcmQ6"), Some(b"Password:".to_vec()));
}

#[test]
fn decode_rejects_bad_input() {
    // not a multiple of four
    assert_eq!(b64_decode(b"Zg="), None);
    // byte outside the alphabet
    assert_eq!(b64_decode(b"Zm9*"), None);
    // padding in the wrong place
    assert_eq!(b64_decode(b"Z==="), None);
    // non-canonical: unused bits of the last sextet are set
    assert_eq!(b64_decode(b"Zh=="), None);
}

#[test]
fn round_trip_all_byte_values() {
    let mut payload: Vec<u8> = Vec::new();
    for i in 0..=255u8 {
        payload.push(i);
    }
    let encoded = b64_encode(&payload);
    assert_eq!(b64_decode(&encoded), Some(payload));
}

#[test]
fn round_trip_odd_lengths() {
    for n in 0..30usize {
        let payload: Vec<u8> = (0..n).map(|i| (i * 37 + 11) as u8).collect();
        let encoded = b64_encode(&payload);
        assert_eq!(b64_decode(&encoded), Some(payload));
    }
}

#[test]
fn plain_payload_splits_at_nuls() {
    let creds = decode_sasl_plain(b"\x00alice\x00secret");
    assert_eq!(creds.authorization_id, b"".to_vec());
    assert_eq!(creds.authentication_id, b"alice".to_vec());
    assert_eq!(creds.password, b"secret".to_vec());
}

#[test]
fn plain_payload_with_authorization_id() {
    let creds = decode_sasl_plain(b"admin\x00alice\x00secret");
    assert_eq!(creds.authorization_id, b"admin".to_vec());
    assert_eq!(creds.authentication_id, b"alice".to_vec());
    assert_eq!(creds.password, b"secret".to_vec());
}

#[test]
fn plain_payload_missing_separators() {
    let creds = decode_sasl_plain(b"alice");
    assert_eq!(creds.authorization_id, b"alice".to_vec());
    assert_eq!(creds.authentication_id, b"".to_vec());
    assert_eq!(creds.password, b"".to_vec());
}
