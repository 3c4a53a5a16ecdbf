//! ECDSA signatures over secp256k1 (k256), hex transport of signatures (hex)
//! and SHA-256 digests (sha2).
use vstd::prelude::*;
use vstd::utf8::encode_utf8;
use k256::ecdsa::signature::{Signer, Verifier};
use sha2::Digest;

verus! {

/// Why a signature could not be made or checked.
#[derive(Debug, Clone, Copy, PartialEq, Eq, Structural)]
pub enum CryptoError {
    /// The secret key bytes are not a valid secp256k1 scalar.
    InvalidSecretKey,
    /// The public key bytes are not a valid SEC1-encoded secp256k1 point.
    InvalidPublicKey,
    /// The signature text is not an even number of hex digits.
    InvalidSignatureEncoding,
    /// The decoded signature is not 64 bytes holding two valid scalars.
    InvalidSignature,
    /// The signature does not match the data and the public key.
    VerificationFailed,
}

// ---------------------------------------------------------------------------
// SHA-256

/// The SHA-256 digest of `data`.
pub uninterp spec fn spec_sha256(data: Seq<u8>) -> Seq<u8>;

/// Calls `sha2::Sha256::digest`. Trusted: the result is the digest of the
/// data, a function of the data alone, and is 32 bytes long.
#[verifier::external_body]
pub fn sha256(data: &[u8]) -> (digest: [u8; 32])
    ensures
        digest@ == spec_sha256(data@),
{
    sha2::Sha256::digest(data).into()
}

// ---------------------------------------------------------------------------
// Hex

/// The lower-case hex digit of a value below 16.
pub open spec fn hex_digit(n: u8) -> char {
    if n < 10 {
        (48 + n) as char
    } else {
        (87 + n) as char
    }
}

/// Two lower-case hex digits per byte, high nibble first.
pub open spec fn spec_hex_encode(bytes: Seq<u8>) -> Seq<char>
    decreases bytes.len(),
{
    if bytes.len() == 0 {
        seq![]
    } else {
        seq![hex_digit(bytes[0] / 16), hex_digit(bytes[0] % 16)] + spec_hex_encode(
            bytes.drop_first(),
        )
    }
}

/// The value of a hex digit, in either case.
pub open spec fn hex_value(c: u8) -> Option<u8> {
    if 48 <= c <= 57 {
        Some((c - 48) as u8)
    } else if 65 <= c <= 70 {
        Some((c - 55) as u8)
    } else if 97 <= c <= 102 {
        Some((c - 87) as u8)
    } else {
        None
    }
}

/// The bytes that a hex text stands for, or `None` where its length is odd
/// or it holds a byte that is no hex digit.
pub open spec fn spec_hex_decode(text: Seq<u8>) -> Option<Seq<u8>>
    decreases text.len(),
{
    if text.len() % 2 != 0 {
        None
    } else if text.len() == 0 {
        Some(seq![])
    } else {
        match (hex_value(text[0]), hex_value(text[1]), spec_hex_decode(text.subrange(2, text.len() as int))) {
            (Some(high), Some(low), Some(rest)) => Some(seq![(high * 16 + low) as u8] + rest),
            _ => None,
        }
    }
}

/// The bytes of characters that are all below 128.
pub open spec fn ascii_bytes(chars: Seq<char>) -> Seq<u8> {
    chars.map_values(|c: char| c as u8)
}

proof fn lemma_hex_digit(n: u8)
    requires
        n < 16,
    ensures
        (hex_digit(n) as u32) < 128,
        hex_value(hex_digit(n) as u8) == Some(n),
{
}

/// Hex text is ASCII, twice as long as its bytes.
pub proof fn lemma_hex_encode_ascii(bytes: Seq<u8>)
    ensures
        spec_hex_encode(bytes).len() == 2 * bytes.len(),
        vstd::utf8::is_ascii_chars(spec_hex_encode(bytes)),
        encode_utf8(spec_hex_encode(bytes)) == ascii_bytes(spec_hex_encode(bytes)),
    decreases bytes.len(),
{
    if bytes.len() > 0 {
        lemma_hex_encode_ascii(bytes.drop_first());
        lemma_hex_digit(bytes[0] / 16);
        lemma_hex_digit(bytes[0] % 16);
        let t = spec_hex_encode(bytes);
        assert forall|i: int| 0 <= i < t.len() implies '\0' <= #[trigger] t[i] <= '\u{7f}' by {
            if i >= 2 {
                assert(t[i] == spec_hex_encode(bytes.drop_first())[i - 2]);
            }
        }
    }
    vstd::utf8::is_ascii_chars_encode_utf8(spec_hex_encode(bytes));
    assert(encode_utf8(spec_hex_encode(bytes)) =~= ascii_bytes(spec_hex_encode(bytes)));
}

/// Decoding the bytes of a hex text gives back what was encoded.
pub proof fn lemma_hex_roundtrip(bytes: Seq<u8>)
    ensures
        spec_hex_decode(encode_utf8(spec_hex_encode(bytes))) == Some(bytes),
    decreases bytes.len(),
{
    lemma_hex_encode_ascii(bytes);
    if bytes.len() > 0 {
        let rest = bytes.drop_first();
        lemma_hex_roundtrip(rest);
        lemma_hex_encode_ascii(rest);
        lemma_hex_digit(bytes[0] / 16);
        lemma_hex_digit(bytes[0] % 16);
        let text = ascii_bytes(spec_hex_encode(bytes));
        assert(text.subrange(2, text.len() as int) =~= ascii_bytes(spec_hex_encode(rest)));
        assert(text[0] == hex_digit(bytes[0] / 16) as u8);
        assert(text[1] == hex_digit(bytes[0] % 16) as u8);
        assert((bytes[0] / 16) * 16 + bytes[0] % 16 == bytes[0]);
        assert(seq![bytes[0]] + rest =~= bytes);
    } else {
        assert(encode_utf8(spec_hex_encode(bytes)) =~= Seq::<u8>::empty());
    }
}

/// Calls `hex::encode`, which writes two lower-case hex digits per byte.
#[verifier::external_body]
pub fn hex_encode(bytes: &[u8]) -> (text: String)
    ensures
        text@ == spec_hex_encode(bytes@),
{
    hex::encode(bytes)
}

/// Calls `hex::decode`, which fails on an odd length or on a byte that is
/// no hex digit and otherwise reads each pair of digits as one byte.
#[verifier::external_body]
pub fn hex_decode(text: &[u8]) -> (bytes: Option<Vec<u8>>)
    ensures
        match bytes {
            Some(b) => spec_hex_decode(text@) == Some(b@),
            None => spec_hex_decode(text@) is None,
        },
{
    hex::decode(text).ok()
}

// ---------------------------------------------------------------------------
// ECDSA over secp256k1

/// The number that the bytes spell, most significant byte first.
pub open spec fn big_endian(bytes: Seq<u8>) -> nat
    decreases bytes.len(),
{
    if bytes.len() == 0 {
        0
    } else {
        big_endian(bytes.drop_last()) * 256 + bytes.last() as nat
    }
}

/// The order of the secp256k1 group.
pub open spec fn group_order() -> nat {
    0xFFFFFFFFFFFFFFFFFFFFFFFFFFFFFFFEBAAEDCE6AF48A03BBFD25E8CD0364141nat
}

/// Whether the bytes, read big-endian, are a scalar in `1..n`.
pub open spec fn is_nonzero_scalar(bytes: Seq<u8>) -> bool {
    0 < big_endian(bytes) < group_order()
}

/// Whether `k256::ecdsa::SigningKey::from_slice` accepts the bytes as a
/// secret scalar: 24 to 32 bytes (shorter ones are padded with leading
/// zeros), read big-endian as a number in `1..n`.
pub open spec fn spec_secret_key_valid(secret: Seq<u8>) -> bool {
    24 <= secret.len() <= 32 && is_nonzero_scalar(secret)
}

/// The 64-byte signature (r then s) that the secret key gives the message;
/// signing is deterministic (RFC 6979).
pub uninterp spec fn spec_ecdsa_signature(secret: Seq<u8>, message: Seq<u8>) -> Seq<u8>;

/// The compressed SEC1 encoding of the public key of a secret key.
pub uninterp spec fn spec_public_key(secret: Seq<u8>) -> Seq<u8>;

/// Whether `k256::ecdsa::VerifyingKey::from_sec1_bytes` accepts the bytes.
pub uninterp spec fn spec_public_key_valid(public_key: Seq<u8>) -> bool;

/// Whether `k256::ecdsa::Signature::from_slice` accepts the bytes: 64
/// bytes, `r` then `s`, each read big-endian as a number in `1..n`.
pub open spec fn spec_signature_valid(signature: Seq<u8>) -> bool {
    &&& signature.len() == 64
    &&& is_nonzero_scalar(signature.subrange(0, 32))
    &&& is_nonzero_scalar(signature.subrange(32, 64))
}

/// Whether the signature verifies for the message under the public key.
pub uninterp spec fn spec_ecdsa_verifies(public_key: Seq<u8>, message: Seq<u8>, signature: Seq<u8>) -> bool;

/// Calls `k256::ecdsa::SigningKey::from_slice` and reports whether it
/// succeeded. Trusted: `SecretKey::from_slice` takes 24 to 32 bytes, pads
/// shorter ones with leading zeros, and accepts them where they read
/// big-endian as a number in `1..n` (`spec_secret_key_valid`).
#[verifier::external_body]
pub fn secret_key_is_valid(secret: &[u8]) -> (ok: bool)
    ensures
        ok == spec_secret_key_valid(secret@),
{
    k256::ecdsa::SigningKey::from_slice(secret).is_ok()
}

/// Calls `Signer::sign` of `k256::ecdsa::SigningKey` (after reading the key
/// with `from_slice`) and returns `Signature::to_bytes`. Trusted: the result
/// is the deterministic signature of the message under the key, 64 bytes
/// long; `Signature::from_slice` accepts it (k256 normalises `s` to its
/// low half, which its own verifier requires), and it verifies for the
/// message under the key's public key. `sign` panics only where
/// RFC 6979 yields a zero `r` or `s`, which no input is known to cause.
#[verifier::external_body]
pub fn ecdsa_sign(secret: &[u8], message: &[u8]) -> (signature: Vec<u8>)
    requires
        spec_secret_key_valid(secret@),
    ensures
        signature@ == spec_ecdsa_signature(secret@, message@),
        signature@.len() == 64,
        spec_signature_valid(signature@),
        spec_ecdsa_verifies(spec_public_key(secret@), message@, signature@),
{
    let key = k256::ecdsa::SigningKey::from_slice(secret).unwrap();
    let signature: k256::ecdsa::Signature = key.sign(message);
    signature.to_bytes().to_vec()
}

/// Calls `VerifyingKey::to_sec1_bytes` on `SigningKey::verifying_key` (the
/// key read with `from_slice`). Trusted: the result is the compressed SEC1
/// point, 33 bytes long, which `VerifyingKey::from_sec1_bytes` accepts.
#[verifier::external_body]
pub fn public_key_of(secret: &[u8]) -> (public_key: Vec<u8>)
    requires
        spec_secret_key_valid(secret@),
    ensures
        public_key@ == spec_public_key(secret@),
        public_key@.len() == 33,
        spec_public_key_valid(public_key@),
{
    let key = k256::ecdsa::SigningKey::from_slice(secret).unwrap();
    key.verifying_key().to_sec1_bytes().to_vec()
}

/// Calls `k256::ecdsa::VerifyingKey::from_sec1_bytes` and reports whether it
/// succeeded. Trusted: the answer is a function of the bytes alone, and the
/// public key of a valid secret key is accepted.
#[verifier::external_body]
pub fn public_key_is_valid(public_key: &[u8]) -> (ok: bool)
    ensures
        ok == spec_public_key_valid(public_key@),
        (exists|secret: Seq<u8>| spec_secret_key_valid(secret) && public_key@ == spec_public_key(secret)) ==> ok,
{
    k256::ecdsa::VerifyingKey::from_sec1_bytes(public_key).is_ok()
}

/// Calls `k256::ecdsa::Signature::from_slice` and reports whether it
/// succeeded. Trusted: it takes exactly 64 bytes and accepts them where `r`
/// and `s` each read big-endian as a number in `1..n`
/// (`spec_signature_valid`), which every signature that `Signer::sign`
/// makes does.
#[verifier::external_body]
pub fn signature_is_valid(signature: &[u8]) -> (ok: bool)
    ensures
        ok == spec_signature_valid(signature@),
        ok ==> signature@.len() == 64,
        (exists|secret: Seq<u8>, message: Seq<u8>|
            spec_secret_key_valid(secret) && signature@ == spec_ecdsa_signature(secret, message))
            ==> ok,
{
    k256::ecdsa::Signature::from_slice(signature).is_ok()
}

/// Calls `Verifier::verify` of `k256::ecdsa::VerifyingKey` (the key read with
/// `from_sec1_bytes`, the signature with `Signature::from_slice`) and reports
/// whether it succeeded. Trusted: the answer depends on the three byte
/// sequences alone, and a signature that a secret key made for the message
/// verifies under that key's public key.
#[verifier::external_body]
pub fn ecdsa_verify(public_key: &[u8], message: &[u8], signature: &[u8]) -> (ok: bool)
    requires
        spec_public_key_valid(public_key@),
        spec_signature_valid(signature@),
    ensures
        ok == spec_ecdsa_verifies(public_key@, message@, signature@),
        forall|secret: Seq<u8>|
            spec_secret_key_valid(secret) && public_key@ == spec_public_key(secret) && signature@
                == spec_ecdsa_signature(secret, message@) ==> ok,
{
    let key = k256::ecdsa::VerifyingKey::from_sec1_bytes(public_key).unwrap();
    let signature = k256::ecdsa::Signature::from_slice(signature).unwrap();
    key.verify(message, &signature).is_ok()
}

// ---------------------------------------------------------------------------
// Signing and checking data

/// What signing `data` with `secret_key` gives: the hex text of the
/// signature, or the reason it cannot be made.
pub open spec fn spec_sign_ecdsa(data: Seq<u8>, secret_key: Seq<u8>) -> Result<Seq<char>, CryptoError> {
    if spec_secret_key_valid(secret_key) {
        Ok(spec_hex_encode(spec_ecdsa_signature(secret_key, data)))
    } else {
        Err(CryptoError::InvalidSecretKey)
    }
}

/// What checking the hex signature of `data` under `public_key` gives.
/// The public key is read first, then the hex text, then the signature.
pub open spec fn spec_verify_ecdsa(data: Seq<u8>, signature_hex: Seq<char>, public_key: Seq<u8>) -> Result<bool, CryptoError> {
    if !spec_public_key_valid(public_key) {
        Err(CryptoError::InvalidPublicKey)
    } else {
        match spec_hex_decode(encode_utf8(signature_hex)) {
            None => Err(CryptoError::InvalidSignatureEncoding),
            Some(signature) => if !spec_signature_valid(signature) {
                Err(CryptoError::InvalidSignature)
            } else if spec_ecdsa_verifies(public_key, data, signature) {
                Ok(true)
            } else {
                Err(CryptoError::VerificationFailed)
            },
        }
    }
}

/// Whether the hex text decodes to a well-formed signature that verifies,
/// under a valid public key, for exactly these data bytes.
pub open spec fn signature_checks_out(data: Seq<u8>, signature_hex: Seq<char>, public_key: Seq<u8>) -> bool {
    &&& spec_public_key_valid(public_key)
    &&& spec_hex_decode(encode_utf8(signature_hex)) is Some
    &&& spec_signature_valid(spec_hex_decode(encode_utf8(signature_hex))->Some_0)
    &&& spec_ecdsa_verifies(public_key, data, spec_hex_decode(encode_utf8(signature_hex))->Some_0)
}

/// Checking a signature succeeds exactly where its hex text decodes to a
/// well-formed signature that verifies under a valid public key for exactly
/// the given data; on any other data, text or key it fails. A signature
/// over other data is accepted only where it also verifies for these data.
pub proof fn lemma_verify_succeeds_only_on_verifying_signatures(
    data: Seq<u8>,
    signature_hex: Seq<char>,
    public_key: Seq<u8>,
)
    ensures
        spec_verify_ecdsa(data, signature_hex, public_key) == Ok::<bool, CryptoError>(true) <==> signature_checks_out(
            data,
            signature_hex,
            public_key,
        ),
        spec_verify_ecdsa(data, signature_hex, public_key) != Ok::<bool, CryptoError>(false),
        spec_verify_ecdsa(data, signature_hex, public_key) == Ok::<bool, CryptoError>(true) ==> spec_public_key_valid(
            public_key,
        ) && exists|signature: Seq<u8>|
            spec_hex_decode(encode_utf8(signature_hex)) == Some(signature) && #[trigger] spec_ecdsa_verifies(
                public_key,
                data,
                signature,
            ),
        forall|signature: Seq<u8>|
            #![trigger spec_ecdsa_verifies(public_key, data, signature)]
            spec_hex_decode(encode_utf8(signature_hex)) == Some(signature) && !spec_ecdsa_verifies(
                public_key,
                data,
                signature,
            ) ==> spec_verify_ecdsa(data, signature_hex, public_key) is Err,
{
}

/// A signature that the secret key made, in hex, checks out under a valid
/// public key of that secret key.
pub proof fn lemma_made_signature_verifies(data: Seq<u8>, secret_key: Seq<u8>)
    requires
        spec_public_key_valid(spec_public_key(secret_key)),
        spec_signature_valid(spec_ecdsa_signature(secret_key, data)),
        spec_ecdsa_verifies(spec_public_key(secret_key), data, spec_ecdsa_signature(secret_key, data)),
    ensures
        spec_verify_ecdsa(data, spec_hex_encode(spec_ecdsa_signature(secret_key, data)), spec_public_key(secret_key))
            == Ok::<bool, CryptoError>(true),
{
    lemma_hex_roundtrip(spec_ecdsa_signature(secret_key, data));
}

/// Signs the encoded data with the secret key and returns the signature as
/// lower-case hex: 128 digits for the 64 bytes of r and s.
pub fn sign_ecdsa(data: &[u8], secret_key: &[u8]) -> (signature: Result<String, CryptoError>)
    ensures
        match signature {
            Ok(text) => spec_sign_ecdsa(data@, secret_key@) == Ok::<Seq<char>, CryptoError>(text@),
            Err(e) => spec_sign_ecdsa(data@, secret_key@) == Err::<Seq<char>, CryptoError>(e),
        },
        signature is Ok ==> spec_signature_valid(spec_ecdsa_signature(secret_key@, data@)) && spec_ecdsa_verifies(
            spec_public_key(secret_key@),
            data@,
            spec_ecdsa_signature(secret_key@, data@),
        ),
        signature matches Ok(text) ==> text@.len() == 128,
{
    if !secret_key_is_valid(secret_key) {
        return Err(CryptoError::InvalidSecretKey);
    }
    let signature = ecdsa_sign(secret_key, data);
    proof {
        lemma_hex_encode_ascii(signature@);
    }
    Ok(hex_encode(signature.as_slice()))
}

/// Checks a hex signature of the encoded data under a SEC1 public key.
/// `Ok(true)` is the only success; each failure has its own error.
/// A signature that `sign_ecdsa` made with a secret key is accepted under
/// that key's public key.
pub fn verify_ecdsa(data: &[u8], signature_hex: &str, public_key: &[u8]) -> (result: Result<bool, CryptoError>)
    ensures
        result == spec_verify_ecdsa(data@, signature_hex@, public_key@),
        forall|secret: Seq<u8>|
            #![trigger spec_public_key(secret), spec_ecdsa_signature(secret, data@)]
            spec_secret_key_valid(secret) && public_key@ == spec_public_key(secret)
                && signature_hex@ == spec_hex_encode(spec_ecdsa_signature(secret, data@))
                ==> result == Ok::<bool, CryptoError>(true),
        result == Ok::<bool, CryptoError>(true) <==> signature_checks_out(data@, signature_hex@, public_key@),
        result == Ok::<bool, CryptoError>(true) ==> spec_public_key_valid(public_key@) && exists|signature: Seq<u8>|
            spec_hex_decode(encode_utf8(signature_hex@)) == Some(signature) && #[trigger] spec_ecdsa_verifies(
                public_key@,
                data@,
                signature,
            ),
{
    let ghost made_by_secret = exists|secret: Seq<u8>|
        spec_secret_key_valid(secret) && public_key@ == spec_public_key(secret)
            && signature_hex@ == spec_hex_encode(spec_ecdsa_signature(secret, data@));
    let ghost secret = choose|secret: Seq<u8>|
        spec_secret_key_valid(secret) && public_key@ == spec_public_key(secret)
            && signature_hex@ == spec_hex_encode(spec_ecdsa_signature(secret, data@));
    if !public_key_is_valid(public_key) {
        return Err(CryptoError::InvalidPublicKey);
    }
    let decoded = hex_decode(signature_hex.as_bytes());
    proof {
        if made_by_secret {
            lemma_hex_roundtrip(spec_ecdsa_signature(secret, data@));
        }
    }
    let signature = match decoded {
        None => {
            return Err(CryptoError::InvalidSignatureEncoding);
        },
        Some(signature) => signature,
    };
    proof {
        if made_by_secret {
            assert(signature@ == spec_ecdsa_signature(secret, data@));
        }
    }
    if !signature_is_valid(signature.as_slice()) {
        return Err(CryptoError::InvalidSignature);
    }
    if ecdsa_verify(public_key, data, signature.as_slice()) {
        Ok(true)
    } else {
        Err(CryptoError::VerificationFailed)
    }
}

} // verus!
