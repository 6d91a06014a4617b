//! The key type character of a zqlu key.

use vstd::prelude::*;

verus! {

/// The three NIST curves that ECDSA keys of the SSH format use.
#[derive(Debug, Clone, Copy, PartialEq, Eq, Structural)]
pub enum EcdsaCurve {
    NistP256,
    NistP384,
    NistP521,
}

/// The key type of a zqlu key, written as one character after `zq.lu`.
///
/// The format's table gives `B` for `ssh-rsa` and reserves `I` to `W` for
/// future use. An RSA key of the three common sizes with exponent 65537 is
/// written as its modulus alone, so the size and exponent are carried by the
/// type: `B` stands for the 2048-bit size, and the first reserved letters, `I`,
/// `J` and `K`, for the 3072-bit and 4096-bit sizes and for every other RSA
/// key, which carries its exponent and modulus with their lengths.
#[derive(Debug, Clone, Copy, PartialEq, Eq, Structural)]
pub enum ZqluKeyType {
    /// `A`: ssh-ed25519
    Ed25519,
    /// `B`: ssh-rsa with exponent 65537 and a 2048-bit modulus
    Rsa2048,
    /// `I`: ssh-rsa with exponent 65537 and a 3072-bit modulus
    Rsa3072,
    /// `J`: ssh-rsa with exponent 65537 and a 4096-bit modulus
    Rsa4096,
    /// `K`: ssh-rsa with any other exponent or modulus size
    RsaExotic,
    /// `C`: ecdsa-sha2-nistp256, odd y
    P256Odd,
    /// `D`: ecdsa-sha2-nistp256, even y
    P256Even,
    /// `E`: ecdsa-sha2-nistp384, odd y
    P384Odd,
    /// `F`: ecdsa-sha2-nistp384, even y
    P384Even,
    /// `G`: ecdsa-sha2-nistp521, odd y
    P521Odd,
    /// `H`: ecdsa-sha2-nistp521, even y
    P521Even,
    /// `X`: extended header
    EXT,
}

/// The byte (an ASCII letter) that stands for a key type.
pub open spec fn key_type_byte(t: ZqluKeyType) -> u8 {
    match t {
        ZqluKeyType::Ed25519 => 0x41u8,
        ZqluKeyType::Rsa2048 => 0x42u8,
        ZqluKeyType::Rsa3072 => 0x49u8,
        ZqluKeyType::Rsa4096 => 0x4Au8,
        ZqluKeyType::RsaExotic => 0x4Bu8,
        ZqluKeyType::P256Odd => 0x43u8,
        ZqluKeyType::P256Even => 0x44u8,
        ZqluKeyType::P384Odd => 0x45u8,
        ZqluKeyType::P384Even => 0x46u8,
        ZqluKeyType::P521Odd => 0x47u8,
        ZqluKeyType::P521Even => 0x48u8,
        ZqluKeyType::EXT => 0x58u8,
    }
}

/// The key type that a byte stands for, if any.
pub open spec fn key_type_of_byte(b: u8) -> Option<ZqluKeyType> {
    if b == 0x41 {
        Some(ZqluKeyType::Ed25519)
    } else if b == 0x42 {
        Some(ZqluKeyType::Rsa2048)
    } else if b == 0x49 {
        Some(ZqluKeyType::Rsa3072)
    } else if b == 0x4a {
        Some(ZqluKeyType::Rsa4096)
    } else if b == 0x4b {
        Some(ZqluKeyType::RsaExotic)
    } else if b == 0x43 {
        Some(ZqluKeyType::P256Odd)
    } else if b == 0x44 {
        Some(ZqluKeyType::P256Even)
    } else if b == 0x45 {
        Some(ZqluKeyType::P384Odd)
    } else if b == 0x46 {
        Some(ZqluKeyType::P384Even)
    } else if b == 0x47 {
        Some(ZqluKeyType::P521Odd)
    } else if b == 0x48 {
        Some(ZqluKeyType::P521Even)
    } else if b == 0x58 {
        Some(ZqluKeyType::EXT)
    } else {
        None
    }
}

/// The letter of a key type.
pub open spec fn key_type_char(t: ZqluKeyType) -> char {
    match t {
        ZqluKeyType::Ed25519 => 'A',
        ZqluKeyType::Rsa2048 => 'B',
        ZqluKeyType::Rsa3072 => 'I',
        ZqluKeyType::Rsa4096 => 'J',
        ZqluKeyType::RsaExotic => 'K',
        ZqluKeyType::P256Odd => 'C',
        ZqluKeyType::P256Even => 'D',
        ZqluKeyType::P384Odd => 'E',
        ZqluKeyType::P384Even => 'F',
        ZqluKeyType::P521Odd => 'G',
        ZqluKeyType::P521Even => 'H',
        ZqluKeyType::EXT => 'X',
    }
}

/// The key type that a character names: one of the letters of the key type
/// table, nothing for any other character.
pub open spec fn key_type_of_char(c: char) -> Option<ZqluKeyType> {
    if (c as u32) < 128 {
        key_type_of_byte((c as u32) as u8)
    } else {
        None
    }
}

/// Whether the key type is one of the ECDSA types whose compressed y is even.
pub open spec fn is_even_type(t: ZqluKeyType) -> bool {
    t == ZqluKeyType::P256Even || t == ZqluKeyType::P384Even || t == ZqluKeyType::P521Even
}

/// The ECDSA key type for a curve and the parity of the point's y coordinate.
pub open spec fn ecdsa_key_type(curve: EcdsaCurve, even: bool) -> ZqluKeyType {
    match curve {
        EcdsaCurve::NistP256 => if even { ZqluKeyType::P256Even } else { ZqluKeyType::P256Odd },
        EcdsaCurve::NistP384 => if even { ZqluKeyType::P384Even } else { ZqluKeyType::P384Odd },
        EcdsaCurve::NistP521 => if even { ZqluKeyType::P521Even } else { ZqluKeyType::P521Odd },
    }
}

impl ZqluKeyType {
    /// The byte that stands for this key type.
    pub fn to_byte(&self) -> (b: u8)
        ensures
            b == key_type_byte(*self),
    {
        match self {
            ZqluKeyType::Ed25519 => 0x41u8,
        ZqluKeyType::Rsa2048 => 0x42u8,
        ZqluKeyType::Rsa3072 => 0x49u8,
        ZqluKeyType::Rsa4096 => 0x4Au8,
        ZqluKeyType::RsaExotic => 0x4Bu8,
            ZqluKeyType::P256Odd => 0x43u8,
            ZqluKeyType::P256Even => 0x44u8,
            ZqluKeyType::P384Odd => 0x45u8,
            ZqluKeyType::P384Even => 0x46u8,
            ZqluKeyType::P521Odd => 0x47u8,
            ZqluKeyType::P521Even => 0x48u8,
            ZqluKeyType::EXT => 0x58u8,
        }
    }

    /// The key type that the byte `b` stands for, or `None` for any other byte.
    pub fn try_from_primitive(b: u8) -> (t: Option<ZqluKeyType>)
        ensures
            t == key_type_of_byte(b),
    {
        match b {
            0x41u8 => Some(ZqluKeyType::Ed25519),
            0x42u8 => Some(ZqluKeyType::Rsa2048),
            0x49u8 => Some(ZqluKeyType::Rsa3072),
            0x4Au8 => Some(ZqluKeyType::Rsa4096),
            0x4Bu8 => Some(ZqluKeyType::RsaExotic),
            0x43u8 => Some(ZqluKeyType::P256Odd),
            0x44u8 => Some(ZqluKeyType::P256Even),
            0x45u8 => Some(ZqluKeyType::P384Odd),
            0x46u8 => Some(ZqluKeyType::P384Even),
            0x47u8 => Some(ZqluKeyType::P521Odd),
            0x48u8 => Some(ZqluKeyType::P521Even),
            0x58u8 => Some(ZqluKeyType::EXT),
            _ => None,
        }
    }

    /// The key type of an ECDSA key on `ecdsa_curve` whose y coordinate is even
    /// exactly when `even` holds.
    pub fn from_curve_and_compressed_y(ecdsa_curve: EcdsaCurve, even: bool) -> (t: Self)
        ensures
            t == ecdsa_key_type(ecdsa_curve, even),
    {
        if even {
            match ecdsa_curve {
                EcdsaCurve::NistP256 => ZqluKeyType::P256Even,
                EcdsaCurve::NistP384 => ZqluKeyType::P384Even,
                EcdsaCurve::NistP521 => ZqluKeyType::P521Even,
            }
        } else {
            match ecdsa_curve {
                EcdsaCurve::NistP256 => ZqluKeyType::P256Odd,
                EcdsaCurve::NistP384 => ZqluKeyType::P384Odd,
                EcdsaCurve::NistP521 => ZqluKeyType::P521Odd,
            }
        }
    }

    /// Whether this is an ECDSA key type whose compressed y coordinate is even.
    pub fn even(&self) -> (r: bool)
        ensures
            r == is_even_type(*self),
    {
        match self {
            ZqluKeyType::P256Even | ZqluKeyType::P384Even | ZqluKeyType::P521Even => true,
            _ => false,
        }
    }
}

/// Every key type is read back from the byte that stands for it, and no two
/// key types share a byte.
pub proof fn lemma_key_type_byte_roundtrip(t: ZqluKeyType)
    ensures
        key_type_of_byte(key_type_byte(t)) == Some(t),
{
}

/// Every key type is read back from its letter, and a character names a key
/// type exactly when it is that key type's letter.
pub proof fn lemma_key_type_char(c: char, t: ZqluKeyType)
    ensures
        key_type_of_char(key_type_char(t)) == Some(t),
        key_type_of_char(c) == Some(t) <==> c == key_type_char(t),
        (key_type_char(t) as u32) as u8 == key_type_byte(t),
{
}

/// A byte that stands for a key type is the byte of that key type.
pub proof fn lemma_key_type_of_byte_inverse(b: u8)
    ensures
        key_type_of_byte(b) matches Some(t) ==> key_type_byte(t) == b,
{
}

/// The ECDSA key type chosen for a curve and a parity records that parity.
pub proof fn lemma_ecdsa_key_type_parity(curve: EcdsaCurve, even: bool)
    ensures
        is_even_type(ecdsa_key_type(curve, even)) == even,
{
}

/// The letters of the format's table for ECDSA keys: `C` and `D` for P-256,
/// `E` and `F` for P-384, `G` and `H` for P-521, the first for a point with an
/// odd y coordinate and the next for an even one. The letter is read back as
/// the same key type, and its ASCII byte is the one the checksum covers.
pub proof fn lemma_ecdsa_letters(curve: EcdsaCurve, even: bool)
    ensures
        key_type_char(ecdsa_key_type(curve, even)) as u32 == (match curve {
            EcdsaCurve::NistP256 => 'C' as u32,
            EcdsaCurve::NistP384 => 'E' as u32,
            EcdsaCurve::NistP521 => 'G' as u32,
        }) + (if even {
            1u32
        } else {
            0u32
        }),
        key_type_of_char(key_type_char(ecdsa_key_type(curve, even))) == Some(
            ecdsa_key_type(curve, even),
        ),
        key_type_byte(ecdsa_key_type(curve, even)) as u32 == key_type_char(
            ecdsa_key_type(curve, even),
        ) as u32,
{
}

/// The letters of the format's table for the other key types: `A` for
/// Ed25519, `B` for RSA (here with exponent 65537 and a 2048-bit modulus) and
/// `X` for the extended header; each is read back as its key type, and its
/// ASCII byte is the one the checksum covers.
pub proof fn lemma_other_letters()
    ensures
        key_type_char(ZqluKeyType::Ed25519) == 'A',
        key_type_char(ZqluKeyType::Rsa2048) == 'B',
        key_type_char(ZqluKeyType::EXT) == 'X',
        key_type_of_char('A') == Some(ZqluKeyType::Ed25519),
        key_type_of_char('B') == Some(ZqluKeyType::Rsa2048),
        key_type_of_char('X') == Some(ZqluKeyType::EXT),
        key_type_byte(ZqluKeyType::Ed25519) == 0x41,
        key_type_byte(ZqluKeyType::Rsa2048) == 0x42,
        key_type_byte(ZqluKeyType::EXT) == 0x58,
{
}

/// Every key type's byte is the ASCII code of its letter, and a character
/// names a key type exactly when it is that type's letter.
pub proof fn lemma_letters_and_bytes_agree(t: ZqluKeyType, c: char)
    ensures
        key_type_byte(t) as u32 == key_type_char(t) as u32,
        key_type_of_char(c) == Some(t) <==> c == key_type_char(t),
{
}

} // verus!
