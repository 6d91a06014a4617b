//! Reading a public key given as OpenSSH text, as a zqlu key, or as a PEM
//! (SubjectPublicKeyInfo) document.

use crate::base62::{b62_digit_value, lemma_encode_chars, lemma_encode_nonempty, spec_encode};
use crate::convert::{
    key_and_checksum, lemma_zqlu_roundtrip, lemma_zqlu_text_reads_back, serialised_key,
    zqlu_encoding, zqlu_roundtrips, zqlu_text,
};
use crate::error::{error_message, invalid_input, ParsePublicKeyError, ZqluError, ZqluErrorView};
use crate::key::{
    ecdsa_key, ed25519_error_text, ed25519_key, key_well_formed, openssh_public_key,
    parse_openssh, sec1_curve, sec1_error_text, uncommented, KeyMaterialView, SshKey, SshKeyView,
};
use crate::curve::canonical_point;
use crate::key_type::{key_type_of_char, EcdsaCurve, ZqluKeyType};
use crate::pem::{
    p256_pem_point, p384_pem_point, p521_pem_point, pem_der, pem_document, pem_ec_point,
    spki_fields, spki_info,
};
use crate::text::{
    all_white_space, ends_with_char, has_prefix, lemma_trim_removes_white_space,
    lemma_trim_surrounded, lemma_trim_unchanged,
    starts_with, trim, trimmed,
};
use crate::zqlu::{key_from_bits, zqlu_decode, Zqlu};
use vstd::prelude::*;
use vstd::string::{StrSliceExecFns, StringExecFns};

verus! {

/// An `InvalidInput` error whose message is `prefix` followed by `detail`.
pub open spec fn prefixed(prefix: Seq<char>, detail: Seq<char>) -> ZqluErrorView {
    ZqluErrorView::InvalidInput(prefix + detail)
}

/// The Ed25519 key of a PEM document, or why it is not one.
pub open spec fn ed25519_pem_key(text: Seq<char>) -> Result<SshKeyView, ZqluErrorView> {
    match pem_der(text) {
        Err(m) => Err(prefixed("Failed to parse PEM public key: "@, m)),
        Ok(der) => match spki_fields(der) {
            Err(m) => Err(prefixed("Failed to parse SPKI public key: "@, m)),
            Ok(info) => if info.algorithm != "1.3.101.112"@ {
                Err(ZqluErrorView::InvalidInput("PEM public key is not Ed25519"@))
            } else if info.has_parameters {
                Err(
                    ZqluErrorView::InvalidInput(
                        "Ed25519 PEM public key must not have algorithm parameters"@,
                    ),
                )
            } else {
                match info.key {
                    None => Err(
                        ZqluErrorView::InvalidInput(
                            "Ed25519 PEM public key contains an invalid bit string"@,
                        ),
                    ),
                    Some(b) => if b.len() != 32 {
                        Err(prefixed("Failed to parse Ed25519 public key: "@, ed25519_error_text(b)))
                    } else {
                        Ok(uncommented(KeyMaterialView::Ed25519(b)))
                    },
                }
            },
        },
    }
}

/// The ECDSA key on `curve` of a PEM document, or why it is not one.
pub open spec fn ec_pem_key(curve: EcdsaCurve, text: Seq<char>) -> Result<SshKeyView, ZqluErrorView> {
    match pem_ec_point(curve, text) {
        Err(m) => Err(prefixed("Failed to parse PEM public key: "@, m)),
        Ok(p) => match sec1_curve(p) {
            None => Err(prefixed("Failed to parse SEC1 public key: "@, sec1_error_text(p))),
            Some(c) => Ok(uncommented(KeyMaterialView::Ecdsa(c, p))),
        },
    }
}

/// The PEM text as read: `input`, with a line feed added if it lacks one at
/// its end.
pub open spec fn pem_text(input: Seq<char>) -> Seq<char> {
    if input.len() > 0 && input.last() == '\n' {
        input
    } else {
        input.push('\n')
    }
}

/// The message that lists why each curve refused a PEM document.
pub open spec fn pem_failure_message(
    ed25519: ZqluErrorView,
    p256: ZqluErrorView,
    p384: ZqluErrorView,
    p521: ZqluErrorView,
) -> Seq<char> {
    "Failed to parse PEM public key as Ed25519 ("@ + error_message(ed25519) + ") P-256 ("@
        + error_message(p256) + ") P-384 ("@ + error_message(p384) + ") or P-521 ("@
        + error_message(p521) + ")"@
}

/// The key of a PEM public key document, trying Ed25519, P-256, P-384 and
/// P-521 in turn, or why none of them fits.
pub open spec fn pem_decode(input: Seq<char>) -> Result<SshKeyView, ZqluErrorView> {
    if !has_prefix(input, "-----BEGIN PUBLIC KEY-----"@) {
        Err(ZqluErrorView::InvalidInput("Input is not a PEM public key"@))
    } else {
        let pem = pem_text(input);
        match ed25519_pem_key(pem) {
            Ok(k) => Ok(k),
            Err(e1) => match ec_pem_key(EcdsaCurve::NistP256, pem) {
                Ok(k) => Ok(k),
                Err(e2) => match ec_pem_key(EcdsaCurve::NistP384, pem) {
                    Ok(k) => Ok(k),
                    Err(e3) => match ec_pem_key(EcdsaCurve::NistP521, pem) {
                        Ok(k) => Ok(k),
                        Err(e4) => Err(
                            ZqluErrorView::InvalidInput(pem_failure_message(e1, e2, e3, e4)),
                        ),
                    },
                },
            },
        }
    }
}

/// The key that `parse` reads from `input`: the first of the OpenSSH, zqlu
/// and PEM readings of the trimmed text that succeeds, or the zqlu and PEM
/// errors when none does.
pub open spec fn parse_result(input: Seq<char>) -> Result<
    SshKeyView,
    (ZqluErrorView, ZqluErrorView),
> {
    let s = trim(input);
    match openssh_public_key(s) {
        Some(k) => Ok(k),
        None => match zqlu_decode(s) {
            Ok(k) => Ok(k),
            Err(z) => match pem_decode(s) {
                Ok(k) => Ok(k),
                Err(p) => Err((z, p)),
            },
        },
    }
}

/// An `InvalidInput` error whose message is `prefix` followed by `detail`.
fn prefixed_error(prefix: &str, detail: &str) -> (e: ZqluError)
    ensures
        e@ == prefixed(prefix@, detail@),
{
    ZqluError::InvalidInput(String::from_str(prefix).concat(detail))
}

/// Whether two texts are equal.
fn same_text(a: &str, b: &str) -> (r: bool)
    ensures
        r == (a@ == b@),
{
    if a.unicode_len() != b.unicode_len() {
        return false;
    }
    assert(a@.subrange(0, b@.len() as int) =~= a@);
    starts_with(a, b)
}

/// Reads an Ed25519 public key from a PEM document.
fn parse_ed25519_pem_public_key(input: &str) -> (r: Result<SshKey, ZqluError>)
    ensures
        match ed25519_pem_key(input@) {
            Ok(k) => r matches Ok(key) && key@ == k && key_well_formed(k) && zqlu_roundtrips(
                k.material,
            ),
            Err(e) => r matches Err(err) && err@ == e,
        },
{
    let der = match pem_document(input) {
        Ok(d) => d,
        Err(m) => return Err(prefixed_error("Failed to parse PEM public key: ", m.as_str())),
    };
    let spki = match spki_info(der.as_slice()) {
        Ok(s) => s,
        Err(m) => return Err(prefixed_error("Failed to parse SPKI public key: ", m.as_str())),
    };
    if !same_text(spki.algorithm.as_str(), "1.3.101.112") {
        return Err(invalid_input("PEM public key is not Ed25519"));
    }
    if spki.has_parameters {
        return Err(invalid_input("Ed25519 PEM public key must not have algorithm parameters"));
    }
    let key_bytes = match &spki.key {
        Some(b) => b,
        None => return Err(invalid_input("Ed25519 PEM public key contains an invalid bit string")),
    };
    match ed25519_key(key_bytes.as_slice()) {
        Ok(k) => Ok(k),
        Err(m) => Err(prefixed_error("Failed to parse Ed25519 public key: ", m.as_str())),
    }
}

/// Makes a key of an uncompressed ECDSA point read from a PEM document.
fn ec_key_from_pem_point(curve: EcdsaCurve, point: Result<Vec<u8>, String>) -> (r: Result<
    SshKey,
    ZqluError,
>)
    ensures
        match point {
            Err(m) => r matches Err(err) && err@ == prefixed(
                "Failed to parse PEM public key: "@,
                m@,
            ),
            Ok(p) => match sec1_curve(p@) {
                None => r matches Err(err) && err@ == prefixed(
                    "Failed to parse SEC1 public key: "@,
                    sec1_error_text(p@),
                ),
                Some(c) => r matches Ok(key) && key@ == uncommented(KeyMaterialView::Ecdsa(c, p@))
                    && key_well_formed(key@),
            },
        },
        point matches Ok(p) && canonical_point(curve, p@) ==> (r matches Ok(key) && zqlu_roundtrips(
            key@.material,
        )),
{
    let encoded = match point {
        Ok(p) => p,
        Err(m) => return Err(prefixed_error("Failed to parse PEM public key: ", m.as_str())),
    };
    match ecdsa_key(encoded.as_slice()) {
        Ok(k) => Ok(k),
        Err(m) => Err(prefixed_error("Failed to parse SEC1 public key: ", m.as_str())),
    }
}

/// Reads a P-256 public key from a PEM document.
fn parse_p256_pem_public_key(input: &str) -> (r: Result<SshKey, ZqluError>)
    ensures
        match ec_pem_key(EcdsaCurve::NistP256, input@) {
            Ok(k) => r matches Ok(key) && key@ == k && key_well_formed(k) && zqlu_roundtrips(
                k.material,
            ),
            Err(e) => r matches Err(err) && err@ == e,
        },
{
    ec_key_from_pem_point(EcdsaCurve::NistP256, p256_pem_point(input))
}

/// Reads a P-384 public key from a PEM document.
fn parse_p384_pem_public_key(input: &str) -> (r: Result<SshKey, ZqluError>)
    ensures
        match ec_pem_key(EcdsaCurve::NistP384, input@) {
            Ok(k) => r matches Ok(key) && key@ == k && key_well_formed(k) && zqlu_roundtrips(
                k.material,
            ),
            Err(e) => r matches Err(err) && err@ == e,
        },
{
    ec_key_from_pem_point(EcdsaCurve::NistP384, p384_pem_point(input))
}

/// Reads a P-521 public key from a PEM document.
fn parse_p521_pem_public_key(input: &str) -> (r: Result<SshKey, ZqluError>)
    ensures
        match ec_pem_key(EcdsaCurve::NistP521, input@) {
            Ok(k) => r matches Ok(key) && key@ == k && key_well_formed(k) && zqlu_roundtrips(
                k.material,
            ),
            Err(e) => r matches Err(err) && err@ == e,
        },
{
    ec_key_from_pem_point(EcdsaCurve::NistP521, p521_pem_point(input))
}

/// Reads a PEM public key document, trying Ed25519, P-256, P-384 and P-521.
pub fn parse_pem_public_key(input: &str) -> (r: Result<SshKey, ZqluError>)
    ensures
        match pem_decode(input@) {
            Ok(k) => r matches Ok(key) && key@ == k && key_well_formed(k) && zqlu_roundtrips(
                k.material,
            ),
            Err(e) => r matches Err(err) && err@ == e,
        },
{
    if !starts_with(input, "-----BEGIN PUBLIC KEY-----") {
        return Err(invalid_input("Input is not a PEM public key"));
    }
    let pem = if ends_with_char(input, '\n') {
        String::from_str(input)
    } else {
        proof {
            reveal_strlit("\n");
        }
        String::from_str(input).concat("\n")
    };
    assert(pem@ =~= pem_text(input@));
    let ed25519 = match parse_ed25519_pem_public_key(pem.as_str()) {
        Ok(k) => return Ok(k),
        Err(e) => e,
    };
    let p256 = match parse_p256_pem_public_key(pem.as_str()) {
        Ok(k) => return Ok(k),
        Err(e) => e,
    };
    let p384 = match parse_p384_pem_public_key(pem.as_str()) {
        Ok(k) => return Ok(k),
        Err(e) => e,
    };
    let p521 = match parse_p521_pem_public_key(pem.as_str()) {
        Ok(k) => return Ok(k),
        Err(e) => e,
    };
    let message = String::from_str("Failed to parse PEM public key as Ed25519 (").concat(
        ed25519.to_string().as_str(),
    ).concat(") P-256 (").concat(p256.to_string().as_str()).concat(") P-384 (").concat(
        p384.to_string().as_str(),
    ).concat(") or P-521 (").concat(p521.to_string().as_str()).concat(")");
    Err(ZqluError::InvalidInput(message))
}

/// Reads a public key given as OpenSSH text, as a zqlu key, or as a PEM
/// public key document (tried in that order), after trimming white space.
pub fn parse(input: &str) -> (r: Result<SshKey, ParsePublicKeyError>)
    ensures
        match parse_result(input@) {
            Ok(k) => r matches Ok(key) && key@ == k && key_well_formed(k),
            Err((z, p)) => r matches Err(ParsePublicKeyError::InvalidInput { zqlu, pem, .. })
                && zqlu@ == z && pem@ == p,
        },
        openssh_public_key(trim(input@)) is None ==> (r matches Ok(key) ==> zqlu_roundtrips(
            key@.material,
        )),
        has_prefix(trim(input@), "zq.lu"@) && !trim(input@).contains('@') ==> match zqlu_decode(
            trim(input@),
        ) {
            Ok(k) => r matches Ok(key) && key@ == k,
            Err(z) => r matches Err(ParsePublicKeyError::InvalidInput { zqlu, pem, .. }) && zqlu@
                == z && pem@ == ZqluErrorView::InvalidInput("Input is not a PEM public key"@),
        },
{
    let input = trimmed(input);
    proof {
        reveal_strlit("zq.lu");
        reveal_strlit("-----BEGIN PUBLIC KEY-----");
        if has_prefix(input@, "zq.lu"@) {
            assert(input@[0] == "zq.lu"@[0]);
            assert(!has_prefix(input@, "-----BEGIN PUBLIC KEY-----"@)) by {
                if has_prefix(input@, "-----BEGIN PUBLIC KEY-----"@) {
                    assert(input@[0] == "-----BEGIN PUBLIC KEY-----"@[0]);
                }
            }
        }
    }
    match parse_openssh(input) {
        Ok(key) => Ok(key),
        Err(openssh) => match Zqlu::new(input) {
            Ok(zqlu) => Ok(zqlu.into_public_key()),
            Err(zqlu) => match parse_pem_public_key(input) {
                Ok(key) => Ok(key),
                Err(pem) => Err(ParsePublicKeyError::InvalidInput { openssh, zqlu, pem }),
            },
        },
    }
}

} // verus!

verus! {

/// The text that `from_public_key` writes is read by `parse` as a zqlu key:
/// it has no white space around it and no `@` in it (so it is no OpenSSH
/// text), begins with `zq.lu`, and reads back as the key its bits stand for.
pub proof fn lemma_zqlu_text_is_parsed_as_zqlu(t: ZqluKeyType, bits: Seq<u8>)
    ensures
        trim(zqlu_text(t, bits)) == zqlu_text(t, bits),
        has_prefix(zqlu_text(t, bits), "zq.lu"@),
        !zqlu_text(t, bits).contains('@'),
        zqlu_decode(zqlu_text(t, bits)) == key_from_bits(bits, t),
{
    reveal_strlit("zq.lu");
    let kc = key_and_checksum(t, bits);
    let e = spec_encode(kc);
    let s = zqlu_text(t, bits);
    lemma_zqlu_text_reads_back(t, bits);
    lemma_encode_chars(kc);
    lemma_encode_nonempty(kc);
    assert(s.last() == e.last());
    assert(b62_digit_value(e[e.len() - 1]) is Some);
    lemma_trim_unchanged(s);
    assert(s.subrange(0, 5) =~= "zq.lu"@);
    assert forall|i: int| 0 <= i < s.len() implies s[i] != '@' by {
        if i >= 6 {
            assert(s[i] == e[i - 6]);
            assert(b62_digit_value(e[i - 6]) is Some);
        }
    }
}

} // verus!

verus! {

/// White space around a text changes nothing in how `parse` reads it: it gives
/// the same key or the same errors.
pub proof fn lemma_parse_ignores_surrounding_white_space(
    w1: Seq<char>,
    s: Seq<char>,
    w2: Seq<char>,
)
    requires
        all_white_space(w1),
        all_white_space(w2),
    ensures
        parse_result(w1 + s + w2) == parse_result(s),
{
    lemma_trim_surrounded(w1, s, w2);
}

/// The final line feed of a PEM document is optional: a document without one
/// reads as it does with one.
pub proof fn lemma_pem_final_line_feed_optional(s: Seq<char>)
    requires
        s.len() == 0 || s.last() != '\n',
    ensures
        pem_decode(s) == pem_decode(s.push('\n')),
{
    reveal_strlit("-----BEGIN PUBLIC KEY-----");
    let p = "-----BEGIN PUBLIC KEY-----"@;
    let t = s.push('\n');
    assert(t.last() == '\n');
    if has_prefix(s, p) {
        assert(t.subrange(0, p.len() as int) =~= s.subrange(0, p.len() as int));
    }
    if has_prefix(t, p) {
        if s.len() >= p.len() {
            assert(t.subrange(0, p.len() as int) =~= s.subrange(0, p.len() as int));
        } else {
            assert(t[s.len() as int] == '\n');
            assert(t.subrange(0, p.len() as int)[s.len() as int] == p[s.len() as int]);
        }
    }
}

/// A key that a zqlu key can hold is written as a text that `parse` and the
/// zqlu reader both read as a key with the same key bits and no comment (no
/// white space to trim, `zq.lu` in front, no `@`): its zqlu form has
/// the same fingerprint, and a key without comment is decoded to itself.
pub proof fn lemma_zqlu_form_keeps_key_bits(m: KeyMaterialView)
    requires
        zqlu_roundtrips(m),
    ensures
        zqlu_encoding(m) matches Ok((z, k)) && k == uncommented(m) && trim(z) == z && has_prefix(
            z,
            "zq.lu"@,
        ) && !z.contains('@') && zqlu_decode(z) == Ok::<
            SshKeyView,
            ZqluErrorView,
        >(k),
{
    lemma_zqlu_roundtrip(m);
    if let Ok((bits, t)) = serialised_key(m) {
        lemma_zqlu_text_is_parsed_as_zqlu(t, bits);
    }
}

/// `parse` passes over a white space character (as `str::trim` has it, tab
/// and the other Unicode White_Space characters) in front of or after a text:
/// an indented key is read as the key.
pub proof fn lemma_parse_passes_over_white_space(c: char, s: Seq<char>)
    requires
        ({
            let u = c as u32;
            ||| 9 <= u <= 13
            ||| u == 32
            ||| u == 0x85
            ||| u == 0xa0
            ||| u == 0x1680
            ||| 0x2000 <= u <= 0x200a
            ||| u == 0x2028
            ||| u == 0x2029
            ||| u == 0x202f
            ||| u == 0x205f
            ||| u == 0x3000
        }),
    ensures
        parse_result(seq![c] + s) == parse_result(s),
        parse_result(s + seq![c]) == parse_result(s),
{
    lemma_trim_removes_white_space(c, s);
}

/// An Ed25519 PEM document is read as the key whose bytes are the bit string
/// of its SubjectPublicKeyInfo, as they stand, when the algorithm is Ed25519
/// (1.3.101.112) without parameters and the bit string holds 32 bytes.
pub proof fn lemma_pem_ed25519_key_is_the_bit_string(input: Seq<char>, b: Seq<u8>)
    requires
        has_prefix(input, "-----BEGIN PUBLIC KEY-----"@),
        pem_der(pem_text(input)) matches Ok(der) && spki_fields(der) matches Ok(info)
            && info.algorithm == "1.3.101.112"@ && !info.has_parameters && info.key == Some(b),
        b.len() == 32,
    ensures
        pem_decode(input) == Ok::<SshKeyView, ZqluErrorView>(uncommented(KeyMaterialView::Ed25519(b))),
{
}

/// An ECDSA key read from a PEM document on some curve is the document's
/// point as that curve's crate reads it, on the curve its length names.
pub proof fn lemma_pem_ec_key_is_the_document_point(curve: EcdsaCurve, text: Seq<char>)
    requires
        pem_ec_point(curve, text) is Ok,
    ensures
        pem_ec_point(curve, text) matches Ok(p) && match sec1_curve(p) {
            Some(c) => ec_pem_key(curve, text) == Ok::<SshKeyView, ZqluErrorView>(
                uncommented(KeyMaterialView::Ecdsa(c, p)),
            ),
            None => ec_pem_key(curve, text) is Err,
        },
{
}

/// Whatever key `parse` reads from a PEM document is taken from the document
/// as it stands: an Ed25519 key is the SubjectPublicKeyInfo's bit string, and
/// an ECDSA key is the point that one of the curves' crates reads from it.
pub proof fn lemma_pem_key_comes_from_the_document(input: Seq<char>)
    requires
        pem_decode(input) is Ok,
    ensures
        pem_decode(input) matches Ok(k) && k.comment.len() == 0 && match k.material {
            KeyMaterialView::Ed25519(b) => pem_der(pem_text(input)) matches Ok(der) && spki_fields(
                der,
            ) matches Ok(info) && info.key == Some(b) && info.algorithm == "1.3.101.112"@,
            KeyMaterialView::Ecdsa(c, p) => sec1_curve(p) == Some(c) && (pem_ec_point(
                EcdsaCurve::NistP256,
                pem_text(input),
            ) == Ok::<Seq<u8>, Seq<char>>(p) || pem_ec_point(EcdsaCurve::NistP384, pem_text(input))
                == Ok::<Seq<u8>, Seq<char>>(p) || pem_ec_point(
                EcdsaCurve::NistP521,
                pem_text(input),
            ) == Ok::<Seq<u8>, Seq<char>>(p)),
            _ => false,
        },
{
}

} // verus!
