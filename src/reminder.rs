//! The reminder shown for a command that an alias could have shortened.
use vstd::prelude::*;
use crate::registry::{RawAliasRecord, normalized, parse_aliases};
use crate::resolver::{find_best_alias, option_view, resolves_to};

verus! {

/// `Alias '<name>' exists for '<expansion>'`, or the empty text when there is no alias.
pub open spec fn message_text(m: Option<(Seq<char>, Seq<char>)>) -> Seq<char> {
    match m {
        Some((n, e)) => "Alias '"@ + n + "' exists for '"@ + e + "'"@,
        None => Seq::empty(),
    }
}

/// The reminder for a resolution result.
pub fn reminder_message(found: &Option<(String, String)>) -> (r: String)
    ensures
        r@ == message_text(option_view(*found)),
{
    match found {
        Some((name, expansion)) => {
            let mut out = String::from_str("Alias '");
            out.append(name.as_str());
            out.append("' exists for '");
            out.append(expansion.as_str());
            out.append("'");
            out
        },
        None => String::new(),
    }
}

/// Normalizes the records, resolves the command against them and words the reminder.
pub fn check_command(command: &str, records: &[RawAliasRecord]) -> (r: String)
    ensures
        exists|m: Option<(Seq<char>, Seq<char>)>|
            resolves_to(command@, normalized(records@), m) && r@ == message_text(m),
{
    let aliases = parse_aliases(records);
    let found = find_best_alias(command, aliases.as_slice());
    reminder_message(&found)
}

} // verus!
