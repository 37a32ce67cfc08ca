//! What the server can do, found out by trying.

use vstd::prelude::*;
use vstd::string::*;

use crate::text::{has_sub, lower_seq, str_contains, str_lower};

verus! {

/// The statement that finds out whether the server knows `REMOVE API`.
pub const REMOVE_API_PROBE: &'static str = "REMOVE API __surrealkit_capability_probe__;";

/// Whether the text of an error says that the server did not understand
/// the statement.
pub open spec fn says_unknown(message: Seq<char>) -> bool {
    let m = lower_seq(message);
    has_sub(m, "unexpected"@) || has_sub(m, "parse"@) || has_sub(m, "not implemented"@)
        || has_sub(m, "invalid statement"@)
}

/// Whether the server knows `REMOVE API`, by what the probe gave: it does
/// where the probe ran, and also where it failed for another reason than not
/// being understood.
pub open spec fn remove_api_known(probe: Result<(), Seq<char>>) -> bool {
    match probe {
        Ok(_) => true,
        Err(message) => !says_unknown(message),
    }
}

pub fn supports_remove_api(probe: &Result<(), String>) -> (r: bool)
    ensures
        r == remove_api_known(
            match *probe {
                Ok(_) => Ok(()),
                Err(m) => Err(m@),
            },
        ),
{
    match probe {
        Ok(_) => true,
        Err(message) => {
            let lowered = str_lower(message.as_str());
            let m = lowered.as_str();
            !(str_contains(m, "unexpected") || str_contains(m, "parse") || str_contains(
                m,
                "not implemented",
            ) || str_contains(m, "invalid statement"))
        },
    }
}

} // verus!
