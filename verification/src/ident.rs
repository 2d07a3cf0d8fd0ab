//! Identifiers of programs: a short fingerprint of the program's name.

use sha2::Digest;
use vstd::prelude::*;
use crate::text::{chars_of, string_of};

verus! {

/// Number of characters in an identifier.
pub const IDENTIFIER_LENGTH: usize = 8;

/// The SHA-256 digest of the UTF-8 bytes of `text`, written as 64 lower-case
/// hexadecimal digits.
pub uninterp spec fn sha256_hex(text: Seq<char>) -> Seq<char>;

/// Tells whether `c` is one of the digits `0` to `9` or the letters `a` to `f`.
pub open spec fn is_lower_hex(c: char) -> bool {
    ('0' <= c && c <= '9') || ('a' <= c && c <= 'f')
}

/// The identifier of the program called `name`: the first eight digits of
/// the fingerprint of the name.
pub open spec fn identifier(name: Seq<char>) -> Seq<char> {
    sha256_hex(name).subrange(0, IDENTIFIER_LENGTH as int)
}

/// Calls `sha2::Sha256::digest` on the bytes of `text` and formats the
/// digest with `{:x}`.
///
/// Trusted: the result is the digest's name above applied to `text`; it has
/// 64 characters (two for each of the digest's 32 bytes), each of them a
/// lower-case hexadecimal digit.
#[verifier::external_body]
fn sha256_hex_of(text: &str) -> (hex: String)
    ensures
        hex@ == sha256_hex(text@),
        hex@.len() == 64,
        forall|i: int| 0 <= i < hex@.len() ==> is_lower_hex(#[trigger] hex@[i]),
{
    format!("{:x}", sha2::Sha256::digest(text.as_bytes()))
}

/// Cuts an identifier out of a fingerprint: its first eight characters.
pub fn identifier_from_hex(hex: &str) -> (id: String)
    requires
        hex@.len() >= IDENTIFIER_LENGTH,
    ensures
        id@ == hex@.subrange(0, IDENTIFIER_LENGTH as int),
{
    let v = chars_of(hex);
    string_of(&v, 0, IDENTIFIER_LENGTH)
}

/// The identifier of the program called `name`. The same name always gives
/// the same identifier: eight lower-case hexadecimal digits.
pub fn generate_hash(name: &str) -> (id: String)
    ensures
        id@ == identifier(name@),
        id@.len() == IDENTIFIER_LENGTH,
        forall|i: int| 0 <= i < id@.len() ==> is_lower_hex(#[trigger] id@[i]),
{
    let hex = sha256_hex_of(name);
    identifier_from_hex(hex.as_str())
}

} // verus!
