use vstd::prelude::*;

use crate::status::CtapStatus;

verus! {

/// How long the prompt waits for the user, in milliseconds.
pub const USER_PRESENCE_TIMEOUT_MS: u32 = 20_000;

/// Answers of the presence prompt.
pub const USER_PRESENCE_OK: i32 = 0;

pub const USER_PRESENCE_DENIED: i32 = 1;

pub const USER_PRESENCE_TIMEOUT: i32 = 2;

pub const USER_PRESENCE_ERROR: i32 = 3;

/// The outcome of a presence check whose prompt answered `rc`.
pub open spec fn presence_outcome(rc: i32) -> Result<(), CtapStatus> {
    if rc == USER_PRESENCE_OK {
        Ok(())
    } else if rc == USER_PRESENCE_DENIED {
        Err(CtapStatus::OperationDenied)
    } else if rc == USER_PRESENCE_TIMEOUT || rc == USER_PRESENCE_ERROR {
        Err(CtapStatus::Timeout)
    } else {
        Err(CtapStatus::Other)
    }
}

/// Maps the prompt's answer to the outcome of the presence check.
pub fn presence_status(rc: i32) -> (r: Result<(), CtapStatus>)
    ensures
        r == presence_outcome(rc),
{
    if rc == USER_PRESENCE_OK {
        Ok(())
    } else if rc == USER_PRESENCE_DENIED {
        Err(CtapStatus::OperationDenied)
    } else if rc == USER_PRESENCE_TIMEOUT || rc == USER_PRESENCE_ERROR {
        Err(CtapStatus::Timeout)
    } else {
        Err(CtapStatus::Other)
    }
}

/// Blocks on the host's presence prompt (which receives the timeout in
/// milliseconds) and maps its answer.
pub fn require_user_presence<G: Fn(u32) -> i32>(prompt: &G) -> (r: Result<(), CtapStatus>)
    requires
        call_requires(*prompt, (USER_PRESENCE_TIMEOUT_MS,)),
    ensures
        exists|rc: i32|
            call_ensures(*prompt, (USER_PRESENCE_TIMEOUT_MS,), rc) && r == presence_outcome(rc),
{
    let rc = prompt(USER_PRESENCE_TIMEOUT_MS);
    presence_status(rc)
}

} // verus!
