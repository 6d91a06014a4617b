use ssh_key::public::{KeyData, RsaPublicKey};
use ssh_key::{Mpint, PublicKey};
use zqlu::base62::{decode, encode};
use zqlu::checksum::compute_checksum;
use zqlu::{parse, transform, Zqlu, ZqluError, ZqluKeyType};

fn modulus(len: usize) -> Vec<u8> {
    (0..len).map(|i| if i == 0 { 0xc5 } else { (i * 37 % 251) as u8 }).collect()
}

fn rsa_openssh(e: &[u8], n: &[u8]) -> String {
    let key = RsaPublicKey {
        e: Mpint::from_positive_bytes(e).unwrap(),
        n: Mpint::from_positive_bytes(n).unwrap(),
    };
    PublicKey::new(KeyData::Rsa(key), "").to_openssh().unwrap()
}

fn key_bits(zqlu: &str) -> Vec<u8> {
    let mut bits = decode(&zqlu[6..]);
    bits.truncate(bits.len() - 2);
    bits
}

fn check_fixed_size(len: usize, letter: &str, key_type: ZqluKeyType) {
    let n = modulus(len);
    let openssh = rsa_openssh(&[1, 0, 1], &n);
    let key = PublicKey::from_openssh(&openssh).unwrap();
    let zqlu = Zqlu::from_public_key(&parse(&openssh).unwrap()).unwrap();
    assert!(zqlu.to_string().starts_with(&format!("zq.lu{}", letter)));
    assert_eq!(zqlu.get_key_type(), key_type);
    assert_eq!(key_bits(&zqlu.to_string()), n);
    assert_eq!(
        Zqlu::new(&zqlu.to_string())
            .unwrap()
            .public_key()
            .as_ssh_key()
            .key_data(),
        key.key_data()
    );
}

#[test]
fn test_from_public_key_rsa_2048() {
    check_fixed_size(256, "B", ZqluKeyType::Rsa2048);
}

#[test]
fn test_from_public_key_rsa_3072() {
    check_fixed_size(384, "I", ZqluKeyType::Rsa3072);
}

#[test]
fn test_from_public_key_rsa_4096() {
    check_fixed_size(512, "J", ZqluKeyType::Rsa4096);
}

#[test]
fn test_from_public_key_rsa_exotic() {
    let n = modulus(256);
    let openssh = rsa_openssh(&[3], &n);
    let key = PublicKey::from_openssh(&openssh).unwrap();
    let zqlu = Zqlu::from_public_key(&parse(&openssh).unwrap()).unwrap();
    assert!(zqlu.to_string().starts_with("zq.luK"));
    assert_eq!(zqlu.get_key_type(), ZqluKeyType::RsaExotic);
    let mut expected = vec![1u8, 3, 0x80, 0x02];
    expected.extend_from_slice(&n);
    assert_eq!(key_bits(&zqlu.to_string()), expected);
    assert_eq!(
        Zqlu::new(&zqlu.to_string())
            .unwrap()
            .public_key()
            .as_ssh_key()
            .key_data(),
        key.key_data()
    );
}

#[test]
fn odd_modulus_length_is_written_with_lengths() {
    let n = modulus(300);
    let openssh = rsa_openssh(&[1, 0, 1], &n);
    let zqlu = Zqlu::from_public_key(&parse(&openssh).unwrap()).unwrap();
    assert_eq!(zqlu.get_key_type(), ZqluKeyType::RsaExotic);
    let bits = key_bits(&zqlu.to_string());
    assert_eq!(&bits[..6], &[3u8, 1, 0, 1, 0xac, 0x02]);
    assert_eq!(&bits[6..], n.as_slice());
}

#[test]
fn rsa_key_decodes_to_openssh() {
    let n = modulus(256);
    let openssh = rsa_openssh(&[1, 0, 1], &n);
    let zqlu = transform(&openssh, false, false).unwrap();
    assert_eq!(transform(&zqlu, true, false).unwrap(), openssh);
}

fn zqlu_text(key_type: ZqluKeyType, letter: &str, bits: &[u8]) -> String {
    let mut data = bits.to_vec();
    let crc = compute_checksum(key_type, bits);
    data.extend_from_slice(&crc.to_be_bytes());
    format!("zq.lu{}{}", letter, encode(&data))
}

fn message(r: Result<Zqlu, ZqluError>) -> String {
    match r {
        Err(ZqluError::InvalidInput(m)) => m,
        other => panic!("expected an invalid input error, got {:?}", other),
    }
}

#[test]
fn rsa_key_of_the_wrong_length_is_refused() {
    let text = zqlu_text(ZqluKeyType::Rsa2048, "B", &modulus(255));
    assert_eq!(message(Zqlu::new(&text)), "Invalid RSA key length");
}

#[test]
fn exotic_rsa_key_bits_must_hold_both_numbers() {
    let text = zqlu_text(ZqluKeyType::RsaExotic, "K", &[1, 3, 5, 1]);
    assert_eq!(message(Zqlu::new(&text)), "Invalid RSA key data");
    let text = zqlu_text(ZqluKeyType::RsaExotic, "K", &[1, 3, 1, 0]);
    assert_eq!(message(Zqlu::new(&text)), "RSA modulus must be positive");
    let text = zqlu_text(ZqluKeyType::RsaExotic, "K", &[1, 3, 1, 7]);
    let zqlu = Zqlu::new(&text).unwrap();
    assert_eq!(zqlu.get_key_type(), ZqluKeyType::RsaExotic);
}

#[test]
fn rsa_key_with_zero_modulus_is_not_written() {
    let key = RsaPublicKey {
        e: Mpint::from_positive_bytes(&[3]).unwrap(),
        n: Mpint::from_bytes(&[]).unwrap(),
    };
    let openssh = PublicKey::new(KeyData::Rsa(key), "").to_openssh().unwrap();
    let key = parse(&openssh).unwrap();
    assert_eq!(
        message(Zqlu::from_public_key(&key)),
        "RSA modulus must be positive"
    );
}

#[test]
fn type_letter_outside_the_table_is_unsupported() {
    assert!(matches!(
        Zqlu::new("zq.lu\u{141}?"),
        Err(ZqluError::UnsupportedKeyType)
    ));
    assert!(matches!(
        Zqlu::new("zq.luY"),
        Err(ZqluError::UnsupportedKeyType)
    ));
}

#[test]
fn exponent_and_modulus_lengths_take_as_many_varint_bytes_as_needed() {
    let n = modulus(20000);
    let openssh = rsa_openssh(&[3], &n);
    let key = PublicKey::from_openssh(&openssh).unwrap();
    let zqlu = Zqlu::from_public_key(&parse(&openssh).unwrap()).unwrap();
    assert_eq!(zqlu.get_key_type(), ZqluKeyType::RsaExotic);
    let text = zqlu.to_string();
    let bits = key_bits(&text);
    // 20000 = 0x4e20: 0x20 | 0x80, then 0x9c
    assert_eq!(&bits[..5], &[1u8, 3, 0xa0, 0x9c, 0x01]);
    assert_eq!(
        Zqlu::new(&text).unwrap().public_key().as_ssh_key().key_data(),
        key.key_data()
    );
}
