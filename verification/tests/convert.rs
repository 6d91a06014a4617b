use p256::elliptic_curve::sec1::ToEncodedPoint;
use ssh_key::public::{EcdsaPublicKey, KeyData};
use ssh_key::PublicKey;
use zqlu::{parse, transform, Zqlu, ZqluKeyType};

fn ed25519_openssh() -> String {
    let bytes: [u8; 32] = core::array::from_fn(|i| (200 - i) as u8);
    let key = KeyData::Ed25519(ssh_key::public::Ed25519PublicKey(bytes));
    PublicKey::new(key, "me@example.org").to_openssh().unwrap()
}

fn ecdsa_openssh(sec1: &[u8]) -> String {
    let key = EcdsaPublicKey::from_sec1_bytes(sec1).unwrap();
    PublicKey::new(KeyData::Ecdsa(key), "").to_openssh().unwrap()
}

fn zqlu_of(openssh: &str) -> Zqlu {
    Zqlu::from_public_key(&parse(openssh).unwrap()).unwrap()
}

fn reads_back(zqlu: &Zqlu, openssh: &str) {
    let key = PublicKey::from_openssh(openssh).unwrap();
    let back = Zqlu::new(&zqlu.to_string()).unwrap();
    assert_eq!(back.public_key().as_ssh_key().key_data(), key.key_data());
}

#[test]
fn test_from_public_key_ed25519() {
    let openssh = ed25519_openssh();
    let zqlu = zqlu_of(&openssh);
    assert!(zqlu.to_string().starts_with("zq.luA"));
    assert_eq!(zqlu.get_key_type(), ZqluKeyType::Ed25519);
    reads_back(&zqlu, &openssh);
}

#[test]
fn test_from_public_key_p256() {
    let point = p256::AffinePoint::GENERATOR.to_encoded_point(false);
    let openssh = ecdsa_openssh(point.as_bytes());
    let zqlu = zqlu_of(&openssh);
    // the generator's y coordinate ends in 0xf5: odd
    assert!(zqlu.to_string().starts_with("zq.luC"));
    assert_eq!(zqlu.get_key_type(), ZqluKeyType::P256Odd);
    reads_back(&zqlu, &openssh);
}

#[test]
fn test_from_public_key_p256_leading_zero() {
    let mut k: u64 = 1;
    let point = loop {
        let p = (p256::ProjectivePoint::GENERATOR * p256::Scalar::from(k)).to_affine();
        let encoded = p.to_encoded_point(false);
        if encoded.as_bytes()[1] == 0 {
            break encoded;
        }
        k += 1;
    };
    let openssh = ecdsa_openssh(point.as_bytes());
    let zqlu = zqlu_of(&openssh);
    // the zero byte that begins the x coordinate is written as a `0`
    assert_eq!(&zqlu.to_string()[6..7], "0");
    reads_back(&zqlu, &openssh);
}

#[test]
fn test_from_public_key_p384() {
    let point = p384::AffinePoint::GENERATOR.to_encoded_point(false);
    let openssh = ecdsa_openssh(point.as_bytes());
    let zqlu = zqlu_of(&openssh);
    let even = point.as_bytes()[96] % 2 == 0;
    let expected = if even { ZqluKeyType::P384Even } else { ZqluKeyType::P384Odd };
    assert_eq!(zqlu.get_key_type(), expected);
    reads_back(&zqlu, &openssh);
}

#[test]
fn test_from_public_key_p521() {
    let point = p521::AffinePoint::GENERATOR.to_encoded_point(false);
    let openssh = ecdsa_openssh(point.as_bytes());
    let zqlu = zqlu_of(&openssh);
    let even = point.as_bytes()[132] % 2 == 0;
    let expected = if even { ZqluKeyType::P521Even } else { ZqluKeyType::P521Odd };
    assert_eq!(zqlu.get_key_type(), expected);
    reads_back(&zqlu, &openssh);
}

#[test]
fn test_fingerprint_from_openssh() {
    let input = ed25519_openssh();
    let expected = PublicKey::from_openssh(&input)
        .unwrap()
        .fingerprint(Default::default())
        .to_string();
    assert_eq!(transform(&input, false, true).unwrap(), expected);
}

#[test]
fn test_fingerprint_from_zqlu() {
    let openssh = ed25519_openssh();
    let zqlu = zqlu_of(&openssh).to_string();
    let expected = PublicKey::from_openssh(&openssh)
        .unwrap()
        .fingerprint(Default::default())
        .to_string();
    assert_eq!(transform(&zqlu, false, true).unwrap(), expected);
}
