//! Tagged content digests of package archives.
//!
//! Two labels exist. The legacy label is `sha1-` followed by the base64 text
//! of the *hexadecimal text* of the 160-bit digest, a double encoding that
//! existing lock files rely on. The strong label is `sha512-` followed by the
//! hexadecimal text of the 512-bit digest.

use vstd::prelude::*;
use sha1::Digest;
use crate::utils::errors::VoltError;
use crate::utils::hex::{hex_chars, hex_lower};
use crate::utils::text::string_of;

verus! {

/// A byte buffer of the `bytes` crate, carried through as an opaque value.
#[verifier::external_type_specification]
#[verifier::external_body]
pub struct ExBytes(bytes::Bytes);

/// The algorithms that an integrity string can name.
#[verifier::external_type_specification]
pub struct ExAlgorithm(ssri::Algorithm);

/// A parsed integrity string, carried through as an opaque value.
#[verifier::external_type_specification]
#[verifier::external_body]
pub struct ExIntegrity(ssri::Integrity);

/// The error of the integrity string parser, carried through as an opaque
/// value.
#[verifier::external_type_specification]
#[verifier::external_body]
pub struct ExIntegrityError(ssri::Error);

/// The bytes that a buffer holds.
pub uninterp spec fn buffer_bytes(data: bytes::Bytes) -> Seq<u8>;

/// The 160-bit SHA-1 digest of a byte string.
pub uninterp spec fn sha1_digest(data: Seq<u8>) -> Seq<u8>;

/// The 512-bit SHA-512 digest of a byte string.
pub uninterp spec fn sha512_digest(data: Seq<u8>) -> Seq<u8>;

/// The base64 text, standard alphabet with padding, of the UTF-8 bytes of a
/// text.
pub uninterp spec fn base64_text(text: Seq<char>) -> Seq<char>;

/// Whether a text reads as an integrity string.
pub uninterp spec fn reads_as_integrity(text: Seq<char>) -> bool;

/// The legacy label of a digest.
pub open spec fn legacy_label(digest: Seq<u8>) -> Seq<char> {
    "sha1-"@ + base64_text(hex_lower(digest))
}

/// The strong label of a digest.
pub open spec fn strong_label(digest: Seq<u8>) -> Seq<char> {
    "sha512-"@ + hex_lower(digest)
}

/// Borrows the contents of a buffer.
///
/// Trusted: this is `Deref::deref` of `bytes::Bytes`, which lends the slice
/// of bytes that the buffer holds.
#[verifier::external_body]
pub(crate) fn buffer_slice(data: &bytes::Bytes) -> (slice: &[u8])
    ensures
        slice@ == buffer_bytes(*data),
{
    &**data
}

/// Feeds `data` to a fresh SHA-1 accumulator and returns the digest.
///
/// Trusted: the body copies the bytes into `sha1::Sha1` with
/// `std::io::copy` and ends with `Digest::finalize`. The copy succeeds:
/// reading from a slice of bytes does not fail, and the accumulator takes
/// every write. The result is the SHA-1 digest of the bytes.
#[verifier::external_body]
pub(crate) fn sha1_of(data: &[u8]) -> (r: Result<Vec<u8>, std::io::Error>)
    ensures
        r is Ok,
        r matches Ok(digest) ==> digest@ == sha1_digest(data@),
{
    let mut hasher = sha1::Sha1::new();
    let mut source: &[u8] = data;
    std::io::copy(&mut source, &mut hasher)?;
    Ok(hasher.finalize().to_vec())
}

/// Feeds `data` to a fresh SHA-512 accumulator and returns the digest.
///
/// Trusted: the body copies the bytes into `sha2::Sha512` with
/// `std::io::copy` and ends with `Digest::finalize`. The copy succeeds:
/// reading from a slice of bytes does not fail, and the accumulator takes
/// every write. The result is the SHA-512 digest of the bytes.
#[verifier::external_body]
pub(crate) fn sha512_of(data: &[u8]) -> (r: Result<Vec<u8>, std::io::Error>)
    ensures
        r is Ok,
        r matches Ok(digest) ==> digest@ == sha512_digest(data@),
{
    let mut hasher = sha2::Sha512::new();
    let mut source: &[u8] = data;
    std::io::copy(&mut source, &mut hasher)?;
    Ok(hasher.finalize().to_vec())
}

/// Encodes the bytes of `text` as base64.
///
/// Trusted: this is `base64::encode`, which encodes its input with the
/// standard alphabet and padding.
#[verifier::external_body]
pub(crate) fn base64_of(text: &str) -> (encoded: String)
    ensures
        encoded@ == base64_text(text@),
{
    base64::encode(text)
}

/// Parses `text` as an integrity string.
///
/// Trusted: this is `FromStr::from_str` of `ssri::Integrity`. Whether it
/// succeeds depends on the text alone.
#[verifier::external_body]
pub(crate) fn parse_integrity(text: &str) -> (r: Result<ssri::Integrity, ssri::Error>)
    ensures
        r is Ok == reads_as_integrity(text@),
{
    text.parse::<ssri::Integrity>()
}

/// The lowercase hexadecimal text of `bytes`.
pub fn hex_string(bytes: &[u8]) -> (text: String)
    ensures
        text@ == hex_lower(bytes@),
{
    let chars = hex_chars(bytes);
    string_of(&chars)
}

/// Puts the legacy tag in front of an encoded digest.
pub fn tag_legacy(encoded: &str) -> (label: String)
    ensures
        label@ == "sha1-"@ + encoded@,
{
    let mut label = String::from_str("sha1-");
    label.append(encoded);
    label
}

/// Decides what becomes of a legacy label once the parser has seen it: the
/// label itself where it was accepted, a parse error that carries the label
/// where it was not.
pub fn confirm_label(label: String, parsed: Result<ssri::Integrity, ssri::Error>) -> (r: Result<
    String,
    VoltError,
>)
    ensures
        parsed is Ok ==> r == Ok::<String, VoltError>(label),
        parsed is Err ==> r == Err::<String, VoltError>(VoltError::HashParseError { hash: label }),
{
    match parsed {
        Ok(_) => Ok(label),
        Err(_) => Err(VoltError::HashParseError { hash: label }),
    }
}

/// The legacy label of a 160-bit digest, checked against the integrity
/// string parser before it is handed out.
pub fn legacy_integrity(digest: &[u8]) -> (r: Result<String, VoltError>)
    ensures
        match r {
            Ok(label) => label@ == legacy_label(digest@) && reads_as_integrity(label@),
            Err(VoltError::HashParseError { hash }) => hash@ == legacy_label(digest@)
                && !reads_as_integrity(hash@),
            Err(_) => false,
        },
{
    let hex = hex_string(digest);
    let encoded = base64_of(hex.as_str());
    let label = tag_legacy(encoded.as_str());
    let parsed = parse_integrity(label.as_str());
    confirm_label(label, parsed)
}

/// The strong label of a 512-bit digest.
pub fn strong_integrity(digest: &[u8]) -> (label: String)
    ensures
        label@ == strong_label(digest@),
{
    let mut label = String::from_str("sha512-");
    let hex = hex_string(digest);
    label.append(hex.as_str());
    label
}

/// What to answer for the legacy label once the bytes were handed to the
/// digest accumulator: the checked label of the digest, or the failure of
/// the copy.
pub fn legacy_outcome(copied: Result<Vec<u8>, std::io::Error>) -> (r: Result<String, VoltError>)
    ensures
        match copied {
            Ok(digest) => match r {
                Ok(label) => label@ == legacy_label(digest@) && reads_as_integrity(label@),
                Err(VoltError::HashParseError { hash }) => hash@ == legacy_label(digest@)
                    && !reads_as_integrity(hash@),
                Err(_) => false,
            },
            Err(e) => r matches Err(VoltError::HasherCopyError(found)) && found == e,
        },
{
    match copied {
        Ok(digest) => legacy_integrity(digest.as_slice()),
        Err(e) => Err(VoltError::HasherCopyError(e)),
    }
}

/// What to answer for the strong label once the bytes were handed to the
/// digest accumulator: the label of the digest, or the failure of the copy.
pub fn strong_outcome(copied: Result<Vec<u8>, std::io::Error>) -> (r: Result<String, VoltError>)
    ensures
        match copied {
            Ok(digest) => r matches Ok(label) && label@ == strong_label(digest@),
            Err(e) => r matches Err(VoltError::HasherCopyError(found)) && found == e,
        },
{
    match copied {
        Ok(digest) => Ok(strong_integrity(digest.as_slice())),
        Err(e) => Err(VoltError::HasherCopyError(e)),
    }
}

} // verus!
