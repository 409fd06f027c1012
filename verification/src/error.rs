//! What is reported to the user.
use crate::text::joined;
use vstd::prelude::*;

verus! {

/// A message as it is reported, with the program's name in front.
pub open spec fn reported(message: Seq<char>) -> Seq<char> {
    "lazymenu-cli: "@ + message
}

/// Puts the program's name in front of `message`.
pub fn config_error(message: &str) -> (report: String)
    ensures
        report@ == reported(message@),
{
    joined("lazymenu-cli: ", message)
}

/// Every report names the program first and then gives the message as it is.
pub proof fn a_report_names_the_program(message: Seq<char>)
    ensures
        reported(message).len() == message.len() + 14,
        reported(message).take(14) == "lazymenu-cli: "@,
        reported(message).skip(14) == message,
{
    reveal_strlit("lazymenu-cli: ");
}

} // verus!
