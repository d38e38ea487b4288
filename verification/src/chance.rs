//! What is left to chance: the tokens of new players and the numbers of new buildings.
use vstd::prelude::*;

verus! {

/// Whether a character is a hexadecimal digit, with small letters.
pub open spec fn is_hex(c: char) -> bool {
    ('0' <= c && c <= '9') || ('a' <= c && c <= 'f')
}

/// Whether a text has the form of a token: 32 hexadecimal digits in groups of 8, 4, 4, 4 and 12
/// with hyphens between them. The third group begins with 4, the fourth with 8, 9, a or b.
pub open spec fn is_token(s: Seq<char>) -> bool {
    &&& s.len() == 36
    &&& s[8] == '-' && s[13] == '-' && s[18] == '-' && s[23] == '-'
    &&& s[14] == '4'
    &&& s[19] == '8' || s[19] == '9' || s[19] == 'a' || s[19] == 'b'
    &&& forall|i: int|
        0 <= i < 36 && i != 8 && i != 13 && i != 18 && i != 23 ==> is_hex(#[trigger] s[i])
}

/// A fresh token: the text of `uuid::Uuid::new_v4`, which is random. It is taken that the text
/// has the form of a token. That it was never given out before is not.
#[verifier::external_body]
pub(crate) fn fresh_token() -> (t: String)
    ensures
        is_token(t@),
{
    uuid::Uuid::new_v4().to_string()
}

/// A number from `rand::random`, which may be any.
#[verifier::external_body]
pub(crate) fn random_number() -> (n: i32) {
    rand::random::<i32>()
}

/// The number of a building, from a random number: its size. The least number, whose size is no
/// number of this kind, stands for itself.
pub open spec fn building_number(raw: i32) -> i32 {
    if raw < 0 && raw > i32::MIN {
        (-raw) as i32
    } else {
        raw
    }
}

/// The number of a building, from a random number.
pub fn building_id(raw: i32) -> (id: i32)
    ensures
        id == building_number(raw),
{
    if raw < 0 && raw > i32::MIN {
        -raw
    } else {
        raw
    }
}

/// A number for a new building.
pub fn new_building_id() -> (id: i32)
    ensures
        id >= 0 || id == i32::MIN,
{
    building_id(random_number())
}

/// A building never gets a number below zero, but for the one number whose size cannot be held, and
/// two draws that differ only in sign come to the same.
pub proof fn building_numbers_have_no_sign(raw: i32)
    ensures
        raw != i32::MIN ==> building_number(raw) >= 0,
        raw >= 0 ==> building_number(raw) == raw,
        raw > i32::MIN ==> building_number((-raw) as i32) == building_number(raw),
{
}

} // verus!
