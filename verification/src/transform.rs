//! The conversion that the command line tool performs.

use crate::convert::zqlu_encoding;
use crate::error::{ParsePublicKeyError, ZqluError};
use crate::key::{fingerprint, openssh_text, sha256_fingerprint, to_openssh};
use crate::parse::{parse, parse_result};
use crate::text::{has_prefix, trim};
use crate::zqlu::{zqlu_decode, Zqlu};
use vstd::prelude::*;

verus! {

/// Why a conversion failed.
#[derive(Debug)]
pub enum TransformError {
    /// The input is in none of the formats that `parse` reads.
    Parse(ParsePublicKeyError),
    /// The input is not a zqlu key, or the key has no zqlu form.
    Zqlu(ZqluError),
    /// `ssh_key` could not write the key as OpenSSH text (which it does for
    /// every key that a zqlu key holds).
    Ssh(ssh_key::Error),
}

/// Converts a key: with `fingerprint`, to its SHA-256 fingerprint; else with
/// `decode`, from a zqlu key to OpenSSH text; else from any format that
/// `parse` reads to a zqlu key.
pub fn transform(input: &str, decode: bool, fingerprint: bool) -> (r: Result<String, TransformError>)
    ensures
        fingerprint ==> match parse_result(input@) {
            Ok(k) => r matches Ok(s) && s@ == sha256_fingerprint(k.material),
            Err((z, p)) => r matches Err(
                TransformError::Parse(ParsePublicKeyError::InvalidInput { zqlu, pem, .. }),
            ) && zqlu@ == z && pem@ == p,
        },
        fingerprint && has_prefix(trim(input@), "zq.lu"@) && !trim(input@).contains('@') ==> match zqlu_decode(
            trim(input@),
        ) {
            Ok(k) => r matches Ok(s) && s@ == sha256_fingerprint(k.material),
            Err(_) => r is Err,
        },
        !fingerprint && decode ==> match zqlu_decode(input@) {
            Ok(k) => r matches Ok(s) && s@ == openssh_text(k),
            Err(e) => r matches Err(TransformError::Zqlu(err)) && err@ == e,
        },
        !fingerprint && !decode ==> match parse_result(input@) {
            Ok(k) => match zqlu_encoding(k.material) {
                Ok((text, _)) => r matches Ok(s) && s@ == text,
                Err(e) => r matches Err(TransformError::Zqlu(err)) && err@ == e,
            },
            Err((z, p)) => r matches Err(
                TransformError::Parse(ParsePublicKeyError::InvalidInput { zqlu, pem, .. }),
            ) && zqlu@ == z && pem@ == p,
        },
{
    if fingerprint {
        let key = match parse(input) {
            Ok(k) => k,
            Err(e) => return Err(TransformError::Parse(e)),
        };
        return Ok(crate::key::fingerprint(&key));
    }
    if decode {
        let zqlu = match Zqlu::new(input) {
            Ok(z) => z,
            Err(e) => return Err(TransformError::Zqlu(e)),
        };
        match to_openssh(zqlu.public_key()) {
            Ok(s) => Ok(s),
            Err(e) => Err(TransformError::Ssh(e)),
        }
    } else {
        let key = match parse(input) {
            Ok(k) => k,
            Err(e) => return Err(TransformError::Parse(e)),
        };
        match Zqlu::from_public_key(&key) {
            Ok(z) => Ok(z.to_string()),
            Err(e) => Err(TransformError::Zqlu(e)),
        }
    }
}

} // verus!
