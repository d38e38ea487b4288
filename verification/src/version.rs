//! Which clients are let in, and how the others are told.
use crate::text;
use crate::text::{contains, decimal_text, parse_u32};
use vstd::prelude::*;
use vstd::string::*;

verus! {

/// The version of this client.
pub const CLIENT_VERSION: u32 = 20;

/// The least version that is let in where the store does not say otherwise.
pub const MIN_CLIENT_VERSION_DEFAULT: u32 = 22;

/// The least version that is let in: what the store says, if it is a number.
pub open spec fn required(stored: Option<Seq<char>>) -> u32 {
    match stored {
        Some(s) => match text::parsed(s) {
            Some(v) => v,
            None => MIN_CLIENT_VERSION_DEFAULT,
        },
        None => MIN_CLIENT_VERSION_DEFAULT,
    }
}

/// The least version that is let in.
pub fn required_version(stored: &Option<String>) -> (v: u32)
    ensures
        v == required(crate::session::text(*stored)),
{
    match stored {
        Some(s) => match parse_u32(s.as_str()) {
            Some(v) => v,
            None => MIN_CLIENT_VERSION_DEFAULT,
        },
        None => MIN_CLIENT_VERSION_DEFAULT,
    }
}

/// What a client that is too old is told.
pub open spec fn refusal(version: u32, required: u32) -> Seq<char> {
    "Client version "@ + text::decimal(version as nat) + " is too old. Minimum required: "@
        + text::decimal(required as nat)
}

/// Lets a client in, or says why not: it is too old.
pub fn check_version(version: u32, required: u32) -> (r: Result<(), String>)
    ensures
        match r {
            Ok(_) => version >= required,
            Err(m) => version < required && m@ == refusal(version, required),
        },
{
    if version < required {
        let mut m = String::from_str("Client version ");
        let v = decimal_text(version);
        m.append(v.as_str());
        m.append(" is too old. Minimum required: ");
        let r = decimal_text(required);
        m.append(r.as_str());
        Err(m)
    } else {
        Ok(())
    }
}

/// What somebody is told who does not begin by asking to join.
pub fn invalid_handshake() -> (m: String)
    ensures
        m@ == "Invalid handshake: expected Join message"@,
{
    String::from_str("Invalid handshake: expected Join message")
}

/// Whether a message says that the client is too old.
pub open spec fn tells_outdated(m: Seq<char>) -> bool {
    text::has_within(m, "Client version"@) && text::has_within(m, "too old"@)
}

/// Whether a message says that the client is too old.
pub fn is_outdated(message: &str) -> (r: bool)
    ensures
        r == tells_outdated(message@),
{
    contains(message, "Client version") && contains(message, "too old")
}

/// A client that is refused for its age understands that it is too old.
pub proof fn refused_clients_know_why(version: u32, required: u32)
    ensures
        tells_outdated(refusal(version, required)),
{
    reveal_strlit("Client version ");
    reveal_strlit("Client version");
    reveal_strlit(" is too old. Minimum required: ");
    reveal_strlit("too old");
    let m = refusal(version, required);
    let v = text::decimal(version as nat);
    let r = text::decimal(required as nat);
    let a = "Client version "@;
    let b = " is too old. Minimum required: "@;
    assert(a.subrange(0, 14) =~= "Client version"@);
    assert(m.subrange(0, 14) =~= a.subrange(0, 14));
    assert(text::has_at(m, "Client version"@, 0));
    let k = 19 + v.len() as int;
    assert(b.subrange(4, 11) =~= "too old"@);
    assert(m.subrange(k, k + 7) =~= b.subrange(4, 11));
    assert(text::has_at(m, "too old"@, k));
}

/// What the store says is required if it is a number, however it is written; else 22.
pub proof fn the_store_decides_the_version(v: u32, s: Seq<char>)
    ensures
        required(Some(text::decimal(v as nat))) == v,
        required(None) == 22,
        text::parsed(s) is None ==> required(Some(s)) == 22,
{
    text::numbers_are_read_back(v);
}

/// A message says that the client is too old exactly if it has both phrases in it.
pub proof fn both_phrases_tell(m: Seq<char>)
    ensures
        tells_outdated(m) <==> (exists|i: int| #[trigger] text::has_at(m, "Client version"@, i)) && (
        exists|i: int| #[trigger] text::has_at(m, "too old"@, i)),
{
}

} // verus!
