//! The calls that this library makes into other crates and into std
//! functions that vstd gives no specification. Each item here is trusted:
//! its contract is believed, not proved.
use vstd::prelude::*;

verus! {

/// What `blake3::hash` returns for the given input bytes, as the 32 raw
/// bytes of the digest.
pub uninterp spec fn blake3_digest(data: Seq<u8>) -> Seq<u8>;

/// Calls `blake3::hash` and converts the `blake3::Hash` into its raw
/// `[u8; 32]` (through `From<Hash> for [u8; 32]`). The contract only says
/// that the result is the BLAKE3 digest of `data`; what that digest is,
/// is not stated.
#[verifier::external_body]
pub fn blake3_hash(data: &[u8]) -> (digest: [u8; 32])
    ensures
        digest@ == blake3_digest(data@),
{
    blake3::hash(data).into()
}

/// Calls std's `String::push`: appends one character.
#[verifier::external_body]
pub fn push_char(s: &mut String, c: char)
    ensures
        final(s)@ == old(s)@.push(c),
{
    s.push(c)
}

/// The parameters that `content_disposition::parse_content_disposition`
/// finds in a `Content-Disposition` header (its `params` map: names
/// lowercased, values unquoted and decoded), as name and value pairs.
pub uninterp spec fn disposition_params(header: Seq<char>) -> Seq<(Seq<char>, Seq<char>)>;

/// Calls `content_disposition::parse_content_disposition` and hands out the
/// entries of its `params` map, in the map's order. The contract names the
/// result and states nothing of how the header is parsed.
#[verifier::external_body]
pub fn parse_disposition_params(header: &str) -> (params: Vec<(String, String)>)
    ensures
        params@.map_values(|p: (String, String)| (p.0@, p.1@)) == disposition_params(header@),
{
    content_disposition::parse_content_disposition(header).params.into_iter().collect()
}

/// What `format!("{:?}", text)` gives for a string slice (the `Debug` of
/// `str`): the text quoted, with the characters that need it escaped.
pub uninterp spec fn debug_escaped(text: Seq<char>) -> Seq<char>;

/// Formats a string slice with std's `Debug` of `str`. The contract names
/// the result; which characters are escaped, and how, is not stated.
#[verifier::external_body]
pub fn debug_text(text: &str) -> (out: String)
    ensures
        out@ == debug_escaped(text@),
{
    format!("{:?}", text)
}

/// `rand::rngs::StdRng`, the generator that draws the cache lifetimes.
#[verifier::external_type_specification]
#[verifier::external_body]
pub struct ExStdRng(rand::rngs::StdRng);

/// Calls `rand::Rng::random_range` on `rng` with the range `low..high`.
/// Its documentation promises a value in the half-open range and panics
/// only on an empty range, which `requires` leaves out; which value comes
/// is left to chance and not stated.
#[verifier::external_body]
pub fn random_below(rng: &mut rand::rngs::StdRng, low: u64, high: u64) -> (v: u64)
    requires
        low < high,
    ensures
        low <= v < high,
{
    rand::Rng::random_range(rng, low..high)
}

} // verus!
