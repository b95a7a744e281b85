use apostle_client::error::ErrorKind;
use apostle_client::keys::{parse_x25519_spki_der, X25519_SPKI_PREFIX};

const VALID_DER: [u8; 44] = [
    0x30, 0x2a, 0x30, 0x05, 0x06, 0x03, 0x2b, 0x65, 0x6e, 0x03, 0x21, 0x00, 4, 174, 4, 246, 179,
    162, 129, 67, 40, 38, 19, 206, 110, 212, 181, 156, 135, 163, 139, 211, 132, 147, 103, 80, 141,
    7, 41, 46, 32, 80, 190, 84,
];

#[test]
fn parses_valid_der() {
    let key = parse_x25519_spki_der(&VALID_DER).expect("should parse");
    assert_eq!(&key, &VALID_DER[12..]);
}

#[test]
fn rejects_wrong_length() {
    assert!(parse_x25519_spki_der(&VALID_DER[..40]).is_err());
}

#[test]
fn rejects_bad_prefix() {
    let mut bad = VALID_DER;
    bad[0] = 0x00;
    assert!(parse_x25519_spki_der(&bad).is_err());
}

#[test]
fn every_byte_of_the_prefix_counts() {
    for i in 0..X25519_SPKI_PREFIX.len() {
        let mut bad = VALID_DER;
        bad[i] ^= 1;
        let err = parse_x25519_spki_der(&bad).unwrap_err();
        assert_eq!(err.kind, ErrorKind::ConfigParsing);
        assert_eq!(err.message, "not a valid X25519 SubjectPublicKeyInfo DER");
    }
}

#[test]
fn lengths_around_the_right_one_are_refused() {
    assert!(parse_x25519_spki_der(&[]).is_err());
    assert!(parse_x25519_spki_der(&X25519_SPKI_PREFIX).is_err());
    assert!(parse_x25519_spki_der(&VALID_DER[..43]).is_err());
    let mut longer = VALID_DER.to_vec();
    longer.push(0);
    assert!(parse_x25519_spki_der(&longer).is_err());
}

#[test]
fn any_key_is_read_back_from_its_encoding() {
    for seed in 0..=255u8 {
        let mut der = X25519_SPKI_PREFIX.to_vec();
        let key: Vec<u8> = (0..32u8)
            .map(|i| seed.wrapping_mul(31).wrapping_add(i))
            .collect();
        der.extend_from_slice(&key);
        assert_eq!(parse_x25519_spki_der(&der).unwrap().to_vec(), key);
    }
}
