//! Security descriptors for the broker's pipes.
//!
//! Two pipes, two different questions.
//!
//! The **broker pipe** has to be reachable by every AI client in the session, including
//! sandboxed ones: discovery is deliberately open, and a low-integrity client that cannot even
//! connect cannot enumerate. A named pipe created with the default descriptor carries the
//! creator's integrity level, so low-integrity processes are refused by the mandatory policy
//! before the DACL is ever consulted, which is why the label has to be lowered explicitly. The
//! DACL still limits it to this user, SYSTEM, and administrators.
//!
//! The **relay pipes** are the opposite case. Each one carries a single client's live session
//! with an activated server, so it is labelled at the requesting client's own integrity level.
//! A lower-integrity process on the same account then cannot write to it, which is what stops a
//! sandboxed process from hijacking a medium-integrity client's grant by guessing the pipe name.
//!
//! Neither of these defends against same-user, same-integrity code: nothing at this layer can.

use crate::text::{push_str, string_from_chars};
use vstd::prelude::*;

verus! {

/// The broker pipe's descriptor for the account with SID `sid`: full access for it, SYSTEM and
/// administrators, and the mandatory label lowered to Low so sandboxed clients can connect.
pub open spec fn broker_sddl(sid: Seq<char>) -> Seq<char> {
    "D:(A;;GA;;;"@ + sid + ")(A;;GA;;;SY)(A;;GA;;;BA)S:(ML;;NW;;;LW)"@
}

/// A relay pipe's descriptor: full access for the account only, labelled at the client's
/// integrity level (Low for a low-integrity client, Medium otherwise).
pub open spec fn relay_sddl(sid: Seq<char>, client_is_low_integrity: bool) -> Seq<char> {
    "D:(A;;GA;;;"@ + sid + ")S:(ML;;NW;;;"@ + (if client_is_low_integrity {
        "LW"@
    } else {
        "ME"@
    }) + ")"@
}

/// The broker pipe's descriptor, given the SID of the account the broker runs as (`None` when
/// it could not be read, and then there is no descriptor).
pub fn broker_pipe_sddl(sid: Option<&str>) -> (r: Option<String>)
    ensures
        match sid {
            Some(s) => r matches Some(d) && d@ == broker_sddl(s@),
            None => r is None,
        },
{
    match sid {
        Some(s) => {
            let mut out: Vec<char> = Vec::new();
            push_str(&mut out, "D:(A;;GA;;;");
            push_str(&mut out, s);
            push_str(&mut out, ")(A;;GA;;;SY)(A;;GA;;;BA)S:(ML;;NW;;;LW)");
            proof {
                reveal_strlit("D:(A;;GA;;;");
                reveal_strlit(")(A;;GA;;;SY)(A;;GA;;;BA)S:(ML;;NW;;;LW)");
            }
            Some(string_from_chars(out.as_slice()))
        },
        None => None,
    }
}

/// A relay pipe's descriptor for a client, given the broker account's SID.
///
/// Administrators are deliberately not granted here. It buys nothing (an administrator can
/// take ownership regardless) and leaving them out keeps the descriptor an honest statement of
/// who the pipe is for.
pub fn relay_pipe_sddl(sid: Option<&str>, client_is_low_integrity: bool) -> (r: Option<String>)
    ensures
        match sid {
            Some(s) => r matches Some(d) && d@ == relay_sddl(s@, client_is_low_integrity),
            None => r is None,
        },
{
    match sid {
        Some(s) => {
            let mut out: Vec<char> = Vec::new();
            push_str(&mut out, "D:(A;;GA;;;");
            push_str(&mut out, s);
            push_str(&mut out, ")S:(ML;;NW;;;");
            push_str(
                &mut out,
                if client_is_low_integrity {
                    "LW"
                } else {
                    "ME"
                },
            );
            push_str(&mut out, ")");
            proof {
                reveal_strlit("D:(A;;GA;;;");
                reveal_strlit(")S:(ML;;NW;;;");
                reveal_strlit("LW");
                reveal_strlit("ME");
                reveal_strlit(")");
            }
            Some(string_from_chars(out.as_slice()))
        },
        None => None,
    }
}

} // verus!
