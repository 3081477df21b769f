//! Block and link identifiers: 128-bit UUIDs, generated and parsed by the
//! `uuid` crate.

use vstd::prelude::*;

verus! {

/// A fresh random (version 4) UUID, as its 128-bit value.
///
/// Calls `uuid::Uuid::new_v4`. The value is random, so nothing is stated of
/// it.
#[verifier::external_body]
pub fn new_id() -> (id: u128) {
    uuid::Uuid::new_v4().as_u128()
}

/// The 128-bit value of the UUID that `uuid::Uuid::parse_str` reads from
/// `text`, or `None` where it rejects the text.
pub uninterp spec fn uuid_parse(text: Seq<char>) -> Option<u128>;

/// Parses a UUID in any of the textual forms `uuid::Uuid::parse_str`
/// accepts (simple, hyphenated, braced, URN).
///
/// Calls `uuid::Uuid::parse_str`; its result is a function of the text
/// alone and is named `uuid_parse`.
#[verifier::external_body]
pub fn parse_id(text: &str) -> (id: Option<u128>)
    ensures
        id == uuid_parse(text@),
{
    uuid::Uuid::parse_str(text).ok().map(|u| u.as_u128())
}

/// Lower-case hexadecimal digit of `n < 16`.
pub open spec fn hex_digit(n: int) -> char {
    if n < 10 {
        (48 + n) as char
    } else {
        (87 + n) as char
    }
}

/// Hex digit `k` (0 = most significant) of the 128-bit value.
pub open spec fn nibble(id: u128, k: int) -> int {
    (id as int / vstd::arithmetic::power2::pow2((4 * (31 - k)) as nat) as int) % 16
}

/// The hyphenated lower-case text of a UUID, `xxxxxxxx-xxxx-xxxx-xxxx-xxxxxxxxxxxx`,
/// the 32 hex digits of the value most significant first: what
/// `uuid::Uuid`'s `Display` writes.
pub open spec fn uuid_text(id: u128) -> Seq<char> {
    Seq::new(
        36,
        |p: int|
            if p == 8 || p == 13 || p == 18 || p == 23 {
                '-'
            } else {
                let hyphens_before: int = if p < 8 {
                    0
                } else if p < 13 {
                    1
                } else if p < 18 {
                    2
                } else if p < 23 {
                    3
                } else {
                    4
                };
                hex_digit(nibble(id, p - hyphens_before))
            },
    )
}

/// Formats a UUID in its hyphenated lower-case form.
///
/// Calls `uuid::Uuid::to_string` (through `Display`), which writes the 32
/// lower-case hex digits of the value, most significant first, grouped
/// 8-4-4-4-12 with hyphens: the text `uuid_text` spells out.
/// `uuid::Uuid::parse_str` reads that hyphenated form back to the same value.
#[verifier::external_body]
pub fn format_id(id: u128) -> (text: String)
    ensures
        text@ == uuid_text(id),
        uuid_parse(text@) == Some(id),
{
    uuid::Uuid::from_u128(id).to_string()
}

} // verus!
