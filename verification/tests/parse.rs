use p256::pkcs8::{EncodePublicKey, LineEnding};
use zqlu::{parse, ParsePublicKeyError, Zqlu};

fn ed25519_openssh(comment: &str) -> String {
    let bytes: [u8; 32] = core::array::from_fn(|i| (i * 7 + 3) as u8);
    let key = ssh_key::PublicKey::new(
        ssh_key::public::KeyData::Ed25519(ssh_key::public::Ed25519PublicKey(bytes)),
        comment,
    );
    key.to_openssh().unwrap()
}

fn ed25519_zq() -> String {
    let key = parse(&ed25519_openssh("")).unwrap();
    Zqlu::from_public_key(&key).unwrap().to_string()
}

fn p256_pem() -> String {
    let key = p256::PublicKey::from_affine(p256::AffinePoint::GENERATOR).unwrap();
    key.to_public_key_pem(LineEnding::LF).unwrap()
}

fn p384_pem() -> String {
    let key = p384::PublicKey::from_affine(p384::AffinePoint::GENERATOR).unwrap();
    key.to_public_key_pem(LineEnding::LF).unwrap()
}

fn p521_pem() -> String {
    let key = p521::PublicKey::from_affine(p521::AffinePoint::GENERATOR).unwrap();
    key.to_public_key_pem(LineEnding::LF).unwrap()
}

const ED25519_PEM: &str = "-----BEGIN PUBLIC KEY-----
MCowBQYDK2VwAyEAGb9ECWmEzf6FQbrBZ9w7lshQhqowtrbLDFw4rXAxZuE=
-----END PUBLIC KEY-----
";

fn openssh_of(pem: &str) -> String {
    parse(pem).unwrap().as_ssh_key().to_openssh().unwrap()
}

fn zqlu_openssh(zq: &str) -> String {
    Zqlu::new(zq)
        .unwrap()
        .public_key()
        .as_ssh_key()
        .to_openssh()
        .unwrap()
}

#[test]
fn test_parse_openssh() {
    let openssh = ed25519_openssh("user@host");
    assert_eq!(
        parse(&openssh).unwrap().as_ssh_key().to_openssh().unwrap(),
        openssh
    );
}

#[test]
fn test_parse_zqlu() {
    assert_eq!(
        parse(&ed25519_zq()).unwrap().as_ssh_key().to_openssh().unwrap(),
        ed25519_openssh("")
    );
}

#[test]
fn test_parse_ed25519_pem() {
    assert!(openssh_of(ED25519_PEM).starts_with("ssh-ed25519 "));
}

#[test]
fn test_parse_p256_pem() {
    assert!(openssh_of(&p256_pem()).starts_with("ecdsa-sha2-nistp256 "));
}

#[test]
fn test_parse_p384_pem() {
    assert!(openssh_of(&p384_pem()).starts_with("ecdsa-sha2-nistp384 "));
}

#[test]
fn test_parse_p521_pem() {
    assert!(openssh_of(&p521_pem()).starts_with("ecdsa-sha2-nistp521 "));
}

#[test]
fn test_parse_trimmed() {
    let key = parse(&format!("\n  {}\n", ed25519_zq())).unwrap();
    assert_eq!(key.as_ssh_key().to_openssh().unwrap(), ed25519_openssh(""));
}

#[test]
fn test_zqlu_to_public_key_ed25519() {
    assert_eq!(zqlu_openssh(&ed25519_zq()), ed25519_openssh(""));
}

fn pem_zqlu_openssh(pem: &str) -> (String, String) {
    let key = parse(pem).unwrap();
    let zq = Zqlu::from_public_key(&key).unwrap().to_string();
    (zqlu_openssh(&zq), key.as_ssh_key().to_openssh().unwrap())
}

#[test]
fn test_zqlu_to_public_key_p256() {
    let (from_zqlu, expected) = pem_zqlu_openssh(&p256_pem());
    assert_eq!(from_zqlu, expected);
}

#[test]
fn test_zqlu_to_public_key_p384() {
    let (from_zqlu, expected) = pem_zqlu_openssh(&p384_pem());
    assert_eq!(from_zqlu, expected);
}

#[test]
fn test_zqlu_to_public_key_p521() {
    let (from_zqlu, expected) = pem_zqlu_openssh(&p521_pem());
    assert_eq!(from_zqlu, expected);
}

#[test]
fn pem_reads_alike_with_and_without_final_line_feed() {
    let pem = p256_pem();
    assert_eq!(openssh_of(pem.trim_end()), openssh_of(&pem));
    assert!(matches!(
        parse("-----BEGIN PUBLIC KEY-----"),
        Err(ParsePublicKeyError::InvalidInput { .. })
    ));
}

#[test]
fn pem_reader_takes_the_final_line_feed_as_optional() {
    let pem = p256_pem();
    let with = zqlu::parse::parse_pem_public_key(&pem).unwrap();
    let without = zqlu::parse::parse_pem_public_key(pem.trim_end()).unwrap();
    assert_eq!(
        with.as_ssh_key().key_data(),
        without.as_ssh_key().key_data()
    );
}
