//! The input translation of the terminal edge.
//!
//! The terminal widget itself is a host-side collaborator; what belongs to
//! the core is the rule for what a keystroke turns into before it is echoed
//! and forwarded to the attached process's standard input.

use vstd::prelude::*;
use vstd::string::*;

verus! {

/// What the terminal forwards for one chunk of input: a bare carriage
/// return becomes a newline; anything else is forwarded unchanged.
pub open spec fn translate_input_spec(s: Seq<char>) -> Seq<char> {
    if s == "\r"@ {
        "\n"@
    } else {
        s
    }
}

/// Translates one chunk of terminal input before it is echoed and forwarded.
pub fn translate_input(input: &str) -> (r: String)
    ensures
        r@ == translate_input_spec(input@),
{
    proof {
        reveal_strlit("\r");
        reveal_strlit("\n");
    }
    if input.unicode_len() == 1 && input.get_char(0) == '\r' {
        proof {
            assert(input@ =~= "\r"@);
        }
        String::from_str("\n")
    } else {
        proof {
            assert(input@ != "\r"@);
        }
        String::from_str(input)
    }
}

} // verus!
