//! What an IPC error is called.

use super::protocol::{IpcErrorCode, IpcResponse};
use crate::text::{contains_text, holds, lower_chars, lowered};
use vstd::prelude::*;

verus! {

/// The code of an error with this message: the first that one of its words calls for.
pub open spec fn code_for(message: Seq<char>) -> IpcErrorCode {
    let lower = lowered(message);
    if contains_text(lower, "not found"@)
        || contains_text(lower, "no peer"@)
        || contains_text(lower, "no pending"@)
        || contains_text(lower, "missing"@)
    {
        IpcErrorCode::NotFound
    } else if contains_text(lower, "denied"@)
        || contains_text(lower, "unauthorized"@)
        || contains_text(lower, "only the coordinator"@)
        || contains_text(lower, "permission"@)
        || contains_text(lower, "reject"@)
    {
        IpcErrorCode::Denied
    } else if contains_text(lower, "not enrolled"@)
        || contains_text(lower, "requires managed"@)
        || contains_text(lower, "requires direct"@)
        || contains_text(lower, "no direct networks"@)
        || contains_text(lower, "not connected to a network"@)
    {
        IpcErrorCode::NotEnrolled
    } else if contains_text(lower, "data plane"@) {
        IpcErrorCode::DataPlaneDown
    } else if contains_text(lower, "invalid"@)
        || contains_text(lower, "must be"@)
        || contains_text(lower, "parse"@)
        || contains_text(lower, "usage:"@)
    {
        IpcErrorCode::InvalidRequest
    } else {
        IpcErrorCode::Internal
    }
}

pub fn classify_ipc_error(message: &str) -> (c: IpcErrorCode)
    ensures
        c == code_for(message@),
{
    let l = lower_chars(message);
    if holds(l.as_slice(), "not found")
        || holds(l.as_slice(), "no peer")
        || holds(l.as_slice(), "no pending")
        || holds(l.as_slice(), "missing")
    {
        return IpcErrorCode::NotFound;
    }
    if holds(l.as_slice(), "denied")
        || holds(l.as_slice(), "unauthorized")
        || holds(l.as_slice(), "only the coordinator")
        || holds(l.as_slice(), "permission")
        || holds(l.as_slice(), "reject")
    {
        return IpcErrorCode::Denied;
    }
    if holds(l.as_slice(), "not enrolled")
        || holds(l.as_slice(), "requires managed")
        || holds(l.as_slice(), "requires direct")
        || holds(l.as_slice(), "no direct networks")
        || holds(l.as_slice(), "not connected to a network")
    {
        return IpcErrorCode::NotEnrolled;
    }
    if holds(l.as_slice(), "data plane") {
        return IpcErrorCode::DataPlaneDown;
    }
    if holds(l.as_slice(), "invalid")
        || holds(l.as_slice(), "must be")
        || holds(l.as_slice(), "parse")
        || holds(l.as_slice(), "usage:")
    {
        return IpcErrorCode::InvalidRequest;
    }
    IpcErrorCode::Internal
}

/// The response to a request that failed.
pub fn failed(message: String) -> (r: IpcResponse)
    ensures
        r == (IpcResponse::Error { code: code_for(message@), message }),
{
    let code = classify_ipc_error(message.as_str());
    IpcResponse::Error { code, message }
}

} // verus!
