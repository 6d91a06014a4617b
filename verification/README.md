# zqlu

A verified library for zqlu, a compact text format for public keys
(`zq.luAAhI0TjjRFd5K5vfy4hig23m7bppmotzOLVIkwFnPMfVWDp`): the identifier
`zq.lu`, a key type letter, and the Base62 encoding of the key bits followed by
a CRC-16/IBM-SDLC checksum. The library is written in Verus. Its own logic is
proved against its contracts; the calls into outside crates (`codeckit`,
`crc`, `bytes`, `ssh_key`, `primeorder` and the curve crates) go
through small `#[verifier::external_body]` wrappers whose contracts are
trusted, not proved, and whose doc comments say what they claim.

Layout:

- `src/base62.rs`: Base62 with leading zero bytes kept as `0` characters; the
  proofs that decoding undoes encoding and that encoding undoes the decoding of
  alphanumeric text.
- `src/checksum.rs`: the checksum, and proofs that a changed byte, a changed
  key type, or a burst of up to 16 changed bits is detected.
- `src/key_type.rs`: the key type letters (`A` Ed25519; `B`, `I`, `J` RSA
  with exponent 65537 and a 2048, 3072 or 4096-bit modulus; `K` any other RSA
  key; `C`-`H` the NIST curves with odd or even y; `X` reserved). The format
  gives `B` for `ssh-rsa` and reserves `I`-`W`; the RSA sizes take the first
  reserved letters so that a common RSA key is written as its modulus alone.
- `src/rsa.rs`: RSA numbers as SSH mpints, the LEB128 lengths of the key bits
  of other RSA keys, and the proofs that both read back.
- `src/key.rs`, `src/curve.rs`, `src/pem.rs`: what the library reads of SSH
  public keys, and the calls into `ssh_key`, `primeorder` and the curve crates.
- `src/zqlu.rs`: reading a zqlu key; `src/convert.rs`: writing one, and the
  proof that a key written as zqlu reads back as the same key.
- `src/parse.rs`: reading OpenSSH text, zqlu keys and PEM public keys.
- `src/transform.rs`: the conversion that the command line tool performs.
- `app/main.rs`: the command line tool (`--decode`, `--fingerprint`,
  `--input`, `--output`).
