use p256::elliptic_curve::sec1::ToEncodedPoint;
use p256::pkcs8::{EncodePublicKey, LineEnding};
use zqlu::checksum::compute_checksum;
use zqlu::{parse, transform, ParsePublicKeyError, TransformError, Zqlu, ZqluError, ZqluKeyType};

const P256_ZQLU: &str = "zq.luDCGME4UXnRi5W6z3rr8tUTR8dINmiDFB3Y32Jb9ivQ3wC4S";

fn ed25519_openssh(bytes: [u8; 32], comment: &str) -> String {
    let key = ssh_key::PublicKey::new(
        ssh_key::public::KeyData::Ed25519(ssh_key::public::Ed25519PublicKey(bytes)),
        comment,
    );
    key.to_openssh().unwrap()
}

fn p256_generator_sec1() -> Vec<u8> {
    let hex = "046B17D1F2E12C4247F8BCE6E563A440F277037D812DEB33A0F4A13945D898C296\
               4FE342E2FE1A7F9B8EE7EB4A7C0F9E162BCE33576B315ECECBB6406837BF51F5";
    (0..hex.len() / 2)
        .map(|i| u8::from_str_radix(&hex[2 * i..2 * i + 2], 16).unwrap())
        .collect()
}

fn p256_generator_pem() -> String {
    let key = p256::PublicKey::from_sec1_bytes(&p256_generator_sec1()).unwrap();
    key.to_public_key_pem(LineEnding::LF).unwrap()
}

#[test]
fn test_zqlu_new() {
    // happy case
    Zqlu::new("zq.luDCGME4UXnRi5W6z3rr8tUTR8dINmiDFB3Y32Jb9ivQ3wC4S").unwrap();
    assert!(matches!(Zqlu::new("test"), Err(ZqluError::InvalidInput(_))));
    assert!(matches!(
        Zqlu::new("zq.lu"),
        Err(ZqluError::InvalidInput(_))
    ));
    assert!(matches!(
        Zqlu::new("zq.luYwhatever"),
        Err(ZqluError::UnsupportedKeyType)
    ));
    assert!(matches!(
        Zqlu::new("zq.luA??"),
        Err(ZqluError::InvalidInput(_))
    ));
    assert!(matches!(
        Zqlu::new("zq.luYdeadbeef"),
        Err(ZqluError::UnsupportedKeyType)
    ));
    // happy case but with checksum modified
    assert!(matches!(
        Zqlu::new("zq.luDCGME4UXnRi5W6z3rr8tUTR8dINmiDFB3Y32Jb9ivQ3wC4Y"),
        Err(ZqluError::InvalidInput(_))
    ));
}

#[test]
fn test_parse_invalid() {
    assert!(matches!(
        parse("not a key"),
        Err(ParsePublicKeyError::InvalidInput { .. })
    ));
}

fn message(r: Result<Zqlu, ZqluError>) -> String {
    match r {
        Err(ZqluError::InvalidInput(m)) => m,
        other => panic!("expected an invalid input error, got {:?}", other),
    }
}

#[test]
fn reports_each_reason_for_refusing_a_zqlu_key() {
    assert_eq!(message(Zqlu::new("test")), "Input must start with 'zq.lu'");
    assert_eq!(
        message(Zqlu::new("zq.lu")),
        "Input is too short to contain a key type"
    );
    assert_eq!(message(Zqlu::new("zq.luA??")), "Invalid character in Zqlu key");
    assert_eq!(
        message(Zqlu::new("zq.luDCGME4UXnRi5W6z3rr8tUTR8dINmiDFB3Y32Jb9ivQ3wC4Y")),
        "Invalid CRC"
    );
    // 31 key bytes of 7 with a valid checksum
    assert_eq!(
        message(Zqlu::new("zq.luA6sbUv3NFmsBfc6WVOMjq8y8ZIRpka9hdCljBH7PiaSc4")),
        "Invalid Ed25519 key length"
    );
}

#[test]
fn reads_the_p256_key_and_its_type() {
    let zqlu = Zqlu::new(P256_ZQLU).unwrap();
    assert_eq!(zqlu.get_key_type(), ZqluKeyType::P256Even);
    assert!(zqlu == P256_ZQLU);
    assert_eq!(zqlu.to_string(), P256_ZQLU);
    let openssh = zqlu.public_key().as_ssh_key().to_openssh().unwrap();
    assert!(openssh.starts_with("ecdsa-sha2-nistp256 "));
}

#[test]
fn writes_an_ed25519_key_with_a_leading_zero_byte() {
    let bytes: [u8; 32] = core::array::from_fn(|i| i as u8);
    let key = parse(&ed25519_openssh(bytes, "")).unwrap();
    let zqlu = Zqlu::from_public_key(&key).unwrap();
    assert_eq!(
        zqlu.to_string(),
        "zq.luA0zBJgKDCN3UxBC9aq3GC8ESWqf5RPqpcRfkfLs21K7Fa"
    );
    assert_eq!(zqlu.get_key_type(), ZqluKeyType::Ed25519);
}

#[test]
fn checksum_covers_prefix_type_and_key() {
    let key: Vec<u8> = (0..32).collect();
    assert_eq!(compute_checksum(ZqluKeyType::Ed25519, &key), 0x7412);
}

#[test]
fn openssh_key_round_trips_through_zqlu() {
    let openssh = ed25519_openssh([7; 32], "user@example.com");
    let key = parse(&openssh).unwrap();
    assert_eq!(key.as_ssh_key().to_openssh().unwrap(), openssh);
    assert_eq!(key.comment(), "user@example.com");
    let zqlu = Zqlu::from_public_key(&key).unwrap();
    assert!(zqlu.to_string().starts_with("zq.luA"));
    let back = Zqlu::new(&zqlu.to_string()).unwrap();
    assert_eq!(
        back.public_key().as_ssh_key().key_data(),
        key.as_ssh_key().key_data()
    );
    assert_eq!(
        back.public_key().as_ssh_key().to_openssh().unwrap(),
        ed25519_openssh([7; 32], "")
    );
}

#[test]
fn zqlu_key_round_trips_through_openssh() {
    let zqlu = Zqlu::new(P256_ZQLU).unwrap();
    let openssh = zqlu.public_key().as_ssh_key().to_openssh().unwrap();
    let key = parse(&openssh).unwrap();
    assert_eq!(Zqlu::from_public_key(&key).unwrap().to_string(), P256_ZQLU);
}

#[test]
fn parses_zqlu_text_with_surrounding_white_space() {
    let key = parse(&format!("\n  {}\n", P256_ZQLU)).unwrap();
    let zqlu = Zqlu::new(P256_ZQLU).unwrap();
    assert_eq!(
        key.as_ssh_key().to_openssh().unwrap(),
        zqlu.public_key().as_ssh_key().to_openssh().unwrap()
    );
}

#[test]
fn pem_p256_key_round_trips_through_zqlu() {
    let pem = p256_generator_pem();
    let key = parse(&pem).unwrap();
    let openssh = key.as_ssh_key().to_openssh().unwrap();
    assert!(openssh.starts_with("ecdsa-sha2-nistp256 "));
    let zqlu = Zqlu::from_public_key(&key).unwrap();
    assert_eq!(zqlu.public_key().as_ssh_key().to_openssh().unwrap(), openssh);
    // the generator's y coordinate ends in 0xf5: odd
    assert_eq!(zqlu.get_key_type(), ZqluKeyType::P256Odd);
}

#[test]
fn pem_key_without_trailing_newline_is_read() {
    let pem = p256_generator_pem();
    let key = parse(pem.trim_end()).unwrap();
    let sec1 = p256::PublicKey::from_sec1_bytes(&p256_generator_sec1())
        .unwrap()
        .to_encoded_point(false);
    match key.material() {
        zqlu::KeyMaterial::Ecdsa { curve, sec1: bytes } => {
            assert_eq!(*curve, zqlu::EcdsaCurve::NistP256);
            assert_eq!(bytes.as_slice(), sec1.as_bytes());
        }
        other => panic!("expected an ECDSA key, got {:?}", other),
    }
}

#[test]
fn pem_that_is_no_key_lists_each_curve() {
    let pem = "-----BEGIN PUBLIC KEY-----\nAAAA\n-----END PUBLIC KEY-----\n";
    match parse(pem) {
        Err(ParsePublicKeyError::InvalidInput { pem, .. }) => {
            let m = pem.to_string();
            assert!(m.contains("Failed to parse PEM public key as Ed25519 ("));
            assert!(m.contains(") P-256 ("));
            assert!(m.contains(") P-384 ("));
            assert!(m.contains(") or P-521 ("));
        }
        other => panic!("expected an error, got {:?}", other),
    }
}

#[test]
fn unsupported_key_type_error_message() {
    assert_eq!(
        ZqluError::UnsupportedKeyType.to_string(),
        "Zqlu does not yet support the supplied key type"
    );
    assert_eq!(
        ZqluError::InvalidInput("x".to_string()).to_string(),
        "Failed to parse the provided input as a key: x"
    );
}

#[test]
fn transform_fingerprints_openssh_and_zqlu_alike() {
    let zqlu = Zqlu::new(P256_ZQLU).unwrap();
    let openssh = zqlu.public_key().as_ssh_key().to_openssh().unwrap();
    let expected = ssh_key::PublicKey::from_openssh(&openssh)
        .unwrap()
        .fingerprint(Default::default())
        .to_string();
    assert_eq!(transform(&openssh, false, true).unwrap(), expected);
    assert_eq!(transform(P256_ZQLU, false, true).unwrap(), expected);
}

#[test]
fn transform_decodes_and_encodes() {
    let openssh = transform(P256_ZQLU, true, false).unwrap();
    assert!(openssh.starts_with("ecdsa-sha2-nistp256 "));
    assert_eq!(transform(&openssh, false, false).unwrap(), P256_ZQLU);
    assert!(matches!(
        transform("not a key", true, false),
        Err(TransformError::Zqlu(ZqluError::InvalidInput(_)))
    ));
    assert!(matches!(
        transform("not a key", false, false),
        Err(TransformError::Parse(_))
    ));
}

#[test]
fn key_data_shorter_than_a_checksum_is_refused() {
    assert_eq!(message(Zqlu::new("zq.luA")), "Invalid CRC");
    assert_eq!(message(Zqlu::new("zq.luA1")), "Invalid CRC");
    assert!(matches!(
        parse("zq.luA"),
        Err(ParsePublicKeyError::InvalidInput { .. })
    ));
}

const ED25519_PEM: &str = "-----BEGIN PUBLIC KEY-----
MCowBQYDK2VwAyEABwcHBwcHBwcHBwcHBwcHBwcHBwcHBwcHBwcHBwcHBwc=
-----END PUBLIC KEY-----
";

#[test]
fn ed25519_pem_key_round_trips_through_zqlu() {
    let key = parse(ED25519_PEM).unwrap();
    let openssh = key.as_ssh_key().to_openssh().unwrap();
    assert_eq!(openssh, ed25519_openssh([7; 32], ""));
    let zqlu = Zqlu::from_public_key(&key).unwrap();
    assert_eq!(zqlu.get_key_type(), ZqluKeyType::Ed25519);
    assert_eq!(zqlu.public_key().as_ssh_key().to_openssh().unwrap(), openssh);
}

#[test]
fn pem_of_another_algorithm_is_not_ed25519() {
    // Ed448's identifier 1.3.101.113 with a 32-byte key
    let pem = "-----BEGIN PUBLIC KEY-----
MCowBQYDK2VxAyEABwcHBwcHBwcHBwcHBwcHBwcHBwcHBwcHBwcHBwcHBwc=
-----END PUBLIC KEY-----
";
    match parse(pem) {
        Err(ParsePublicKeyError::InvalidInput { pem, .. }) => {
            assert!(pem
                .to_string()
                .contains("Ed25519 (Failed to parse the provided input as a key: PEM public key is not Ed25519)"));
        }
        other => panic!("expected an error, got {:?}", other),
    }
}

#[test]
fn pem_p384_key_round_trips_through_zqlu() {
    let key = p384::PublicKey::from_affine(p384::AffinePoint::GENERATOR).unwrap();
    let pem = key.to_public_key_pem(LineEnding::LF).unwrap();
    let key = parse(&pem).unwrap();
    let openssh = key.as_ssh_key().to_openssh().unwrap();
    assert!(openssh.starts_with("ecdsa-sha2-nistp384 "));
    let zqlu = Zqlu::from_public_key(&key).unwrap();
    assert!(zqlu.to_string().starts_with("zq.luE") || zqlu.to_string().starts_with("zq.luF"));
    assert_eq!(zqlu.public_key().as_ssh_key().to_openssh().unwrap(), openssh);
}

#[test]
fn pem_p521_key_round_trips_through_zqlu() {
    let key = p521::PublicKey::from_affine(p521::AffinePoint::GENERATOR).unwrap();
    let pem = key.to_public_key_pem(LineEnding::LF).unwrap();
    let key = parse(&pem).unwrap();
    let openssh = key.as_ssh_key().to_openssh().unwrap();
    assert!(openssh.starts_with("ecdsa-sha2-nistp521 "));
    let zqlu = Zqlu::from_public_key(&key).unwrap();
    assert!(zqlu.to_string().starts_with("zq.luG") || zqlu.to_string().starts_with("zq.luH"));
    assert_eq!(zqlu.public_key().as_ssh_key().to_openssh().unwrap(), openssh);
}

#[test]
fn zqlu_key_split_over_lines_is_read() {
    let split = format!("{}\n  {}", &P256_ZQLU[..20], &P256_ZQLU[20..]);
    let zqlu = Zqlu::new(&split).unwrap();
    let whole = Zqlu::new(P256_ZQLU).unwrap();
    assert_eq!(
        zqlu.public_key().as_ssh_key().to_openssh().unwrap(),
        whole.public_key().as_ssh_key().to_openssh().unwrap()
    );
}

#[test]
fn zqlu_key_with_a_changed_type_letter_is_refused() {
    let changed = P256_ZQLU.replacen("luD", "luC", 1);
    assert_eq!(message(Zqlu::new(&changed)), "Invalid CRC");
}

#[test]
fn burst_of_sixteen_flipped_bits_is_detected() {
    let mut data = zqlu::base62::decode(&P256_ZQLU[6..]);
    // flip bits 4..20 of the window that starts at byte 5: the high nibble of
    // byte 5, all of byte 6 and the low nibble of byte 7
    data[5] ^= 0xf0;
    data[6] ^= 0xff;
    data[7] ^= 0x0f;
    let changed = format!("zq.luD{}", zqlu::base62::encode(&data));
    assert_eq!(message(Zqlu::new(&changed)), "Invalid CRC");
}

#[test]
fn white_space_among_leading_zeros_is_passed_over() {
    let bytes: [u8; 32] = core::array::from_fn(|i| i as u8);
    let key = parse(&ed25519_openssh(bytes, "")).unwrap();
    let zq = Zqlu::from_public_key(&key).unwrap().to_string();
    assert!(zq.starts_with("zq.luA0"));
    let spaced = format!("{} \t{}\n {}", &zq[..6], &zq[6..7], &zq[7..]);
    let read = Zqlu::new(&spaced).unwrap();
    assert_eq!(
        read.public_key().as_ssh_key().key_data(),
        key.as_ssh_key().key_data()
    );
    assert_eq!(read.get_key_type(), ZqluKeyType::Ed25519);
}

#[test]
fn burst_at_the_start_of_the_key_bits_is_detected() {
    let mut data = zqlu::base62::decode(&P256_ZQLU[6..]);
    // bits 0..12 of the key bits: all of the first byte and half the second
    data[0] ^= 0xff;
    data[1] ^= 0x0f;
    let changed = format!("zq.luD{}", zqlu::base62::encode(&data));
    assert_eq!(message(Zqlu::new(&changed)), "Invalid CRC");
}
