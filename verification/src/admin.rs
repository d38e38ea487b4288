//! What the tool for operators is asked to do.
use crate::text;
use crate::text::{parse_u32, trim};
use vstd::prelude::*;
use vstd::string::*;

verus! {

/// What the tool is asked to do.
pub enum Command {
    /// Say how the tool is used.
    Help,
    /// The new least version is missing.
    MissingVersion,
    /// The new least version is no number.
    BadVersion,
    /// Set the least version to this.
    SetVersion(String),
    /// Wipe out all players, if this is confirmed.
    Reset,
    /// There is no such command.
    Unknown(String),
}

/// Whether the arguments, of which the first is the name of the tool, ask for the command.
pub open spec fn asks_for(args: Seq<String>, c: Command) -> bool {
    if args.len() < 2 {
        c is Help
    } else if args[1]@ == "set-version"@ {
        if args.len() < 3 {
            c is MissingVersion
        } else if text::parsed(args[2]@) is None {
            c is BadVersion
        } else {
            c matches Command::SetVersion(v) && v@ == args[2]@
        }
    } else if args[1]@ == "reset-db"@ {
        c is Reset
    } else {
        c matches Command::Unknown(s) && s@ == args[1]@
    }
}

/// What the arguments ask for.
pub fn command(args: &Vec<String>) -> (c: Command)
    ensures
        asks_for(args@, c),
{
    if args.len() < 2 {
        return Command::Help;
    }
    if args[1] == String::from_str("set-version") {
        if args.len() < 3 {
            return Command::MissingVersion;
        }
        match parse_u32(args[2].as_str()) {
            Some(_) => Command::SetVersion(args[2].clone()),
            None => Command::BadVersion,
        }
    } else if args[1] == String::from_str("reset-db") {
        Command::Reset
    } else {
        Command::Unknown(args[1].clone())
    }
}

/// Whether an answer confirms that all players are to be wiped out: it is the word for it, with
/// nothing but white space around it.
pub fn is_confirmed(answer: &str) -> (r: bool)
    ensures
        r == (text::trimmed(answer@) == "yes"@),
{
    String::from_str(trim(answer)) == String::from_str("yes")
}

/// Whether the first at sign of a text stands at the given place.
pub open spec fn sign_at(s: Seq<char>, i: int) -> bool {
    &&& 0 <= i < s.len()
    &&& s[i] == '@'
    &&& forall|j: int| 0 <= j < i ==> #[trigger] s[j] != '@'
}

/// The part of an address that names the host: what follows the first at sign.
pub fn host_part(url: &str) -> (r: Option<&str>)
    ensures
        match r {
            Some(h) => exists|i: int| #[trigger]
                sign_at(url@, i) && h@ == url@.subrange(i + 1, url@.len() as int),
            None => forall|j: int| 0 <= j < url@.len() ==> #[trigger] url@[j] != '@',
        },
{
    let n: usize = url.unicode_len();
    let mut i: usize = 0;
    while i < n
        invariant
            n == url@.len(),
            i <= n,
            forall|j: int| 0 <= j < i ==> #[trigger] url@[j] != '@',
        decreases n - i,
    {
        if url.get_char(i) == '@' {
            assert(sign_at(url@, i as int));
            return Some(url.substring_char(i + 1, n));
        }
        i = i + 1;
    }
    None
}

/// A version is set exactly if it is asked for with a number, and to what was written; all players
/// are wiped out exactly if that is asked for.
pub proof fn commands_do_what_they_say(args: Seq<String>, c: Command)
    requires
        asks_for(args, c),
    ensures
        c is SetVersion <==> args.len() >= 3 && args[1]@ == "set-version"@ && text::parsed(
            args[2]@,
        ) is Some,
        c matches Command::SetVersion(v) ==> v@ == args[2]@,
        c is Reset <==> args.len() >= 2 && args[1]@ == "reset-db"@,
        c is Help <==> args.len() < 2,
        c is MissingVersion <==> args.len() == 2 && args[1]@ == "set-version"@,
        c is BadVersion <==> args.len() >= 3 && args[1]@ == "set-version"@ && text::parsed(
            args[2]@,
        ) is None,
{
    reveal_strlit("set-version");
    reveal_strlit("reset-db");
    assert("set-version"@.len() != "reset-db"@.len());
}

} // verus!
