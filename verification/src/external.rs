//! Calls into outside crates and std functions that vstd does not specify.
use vstd::prelude::*;

verus! {

/// The SHA-256 digest of a byte sequence, as computed by the `sha2` crate.
pub uninterp spec fn spec_sha256(data: Seq<u8>) -> Seq<u8>;

/// Calls `sha2::Sha256::digest`; the contract names the digest of exactly the given bytes.
#[verifier::external_body]
pub(crate) fn sha256_digest(data: &[u8]) -> (res: [u8; 32])
    ensures
        res@ == spec_sha256(data@),
{
    <sha2::Sha256 as sha2::Digest>::digest(data).into()
}

/// What `encoding_rs::WINDOWS_1252.encode` returns for a text: the bytes and whether
/// some character had no Windows-1252 representation.
pub uninterp spec fn spec_windows_1252(text: Seq<char>) -> (Seq<u8>, bool);

/// Calls `encoding_rs::WINDOWS_1252.encode`. The contract names the result and states
/// the documented fast path: ASCII text encodes to its own character codes without error.
#[verifier::external_body]
pub(crate) fn windows_1252_encode(text: &str) -> (res: (Vec<u8>, bool))
    ensures
        (res.0@, res.1) == spec_windows_1252(text@),
        vstd::utf8::is_ascii_chars(text@) ==> !res.1 && res.0@ == Seq::new(
            text@.len(),
            |i: int| text@[i] as u8,
        ),
{
    let (bytes, _, had_errors) = encoding_rs::WINDOWS_1252.encode(text);
    (bytes.into_owned(), had_errors)
}

/// What `str::to_uppercase` returns for a text: its Unicode uppercase mapping.
pub uninterp spec fn spec_to_uppercase(text: Seq<char>) -> Seq<char>;

/// Calls `str::to_uppercase`; the contract names the uppercase text of exactly the given text.
#[verifier::external_body]
pub(crate) fn to_uppercase(text: &str) -> (res: String)
    ensures
        res@ == spec_to_uppercase(text@),
{
    text.to_uppercase()
}

} // verus!
