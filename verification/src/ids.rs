//! Universally unique identifiers as numbers, and their texts.

use uuid::Uuid;
use vstd::prelude::*;
use vstd::string::*;

verus! {

/// Sixteen to some power.
pub open spec fn pow16(n: nat) -> nat
    decreases n,
{
    if n == 0 {
        1
    } else {
        16 * pow16((n - 1) as nat)
    }
}

/// A hexadecimal digit.
pub open spec fn hex_digit(d: nat) -> char {
    if d < 10 {
        ('0' as u32 + d) as char
    } else {
        ('a' as u32 + (d - 10)) as char
    }
}

/// How many hyphens stand before a position in the text of an identifier.
pub open spec fn hyphens_before(i: int) -> int {
    (if i > 8 {
        1int
    } else {
        0
    }) + (if i > 13 {
        1int
    } else {
        0
    }) + (if i > 18 {
        1int
    } else {
        0
    }) + (if i > 23 {
        1int
    } else {
        0
    })
}

/// The text of an identifier: 32 hexadecimal digits, the highest first, in groups
/// of 8, 4, 4, 4 and 12 with hyphens between them.
pub open spec fn uuid_chars(id: u128) -> Seq<char> {
    Seq::new(
        36,
        |i: int|
            if i == 8 || i == 13 || i == 18 || i == 23 {
                '-'
            } else {
                let place = (31 - (i - hyphens_before(i))) as nat;
                hex_digit((id as nat / pow16(place)) % 16)
            },
    )
}

/// The identifier that a text stands for, if it is one.
pub uninterp spec fn uuid_in(text: Seq<char>) -> Option<u128>;

/// `Uuid::new_v4`: a fresh random identifier.
#[verifier::external_body]
pub(crate) fn fresh_uuid() -> (r: u128) {
    Uuid::new_v4().as_u128()
}

/// The `Display` of `uuid::Uuid`, for the identifier with this value.
#[verifier::external_body]
pub(crate) fn uuid_text(id: u128) -> (r: String)
    ensures
        r@ == uuid_chars(id),
{
    Uuid::from_u128(id).to_string()
}

/// `Uuid::parse_str`: the identifier in a text, if the text is one. It reads what
/// `Display` writes.
#[verifier::external_body]
pub(crate) fn parse_uuid(text: &str) -> (r: Option<u128>)
    ensures
        r == uuid_in(text@),
        forall|id: u128| text@ == #[trigger] uuid_chars(id) ==> r == Some(id),
{
    Uuid::parse_str(text).ok().map(|id| id.as_u128())
}

} // verus!
