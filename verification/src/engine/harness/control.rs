//! What a worker answers.
use crate::text::{join2, join3, same_text};
use vstd::prelude::*;
use vstd::string::*;

verus! {

/// What is left to be done of a splittable element: its encoded element, if the worker
/// gave one.
#[derive(Debug, PartialEq)]
pub struct DelayedApplication {
    pub element: Option<Vec<u8>>,
}

/// What a worker says of a bundle that it processed.
#[derive(Debug, PartialEq)]
pub struct ProcessBundleResponse {
    pub residual_roots: Vec<DelayedApplication>,
}

/// What came of a request to a worker.
#[derive(Debug, PartialEq)]
pub enum ControlResponse {
    BundleRegistered,
    ProcessBundleSuccess(ProcessBundleResponse),
    ProcessBundleError(String),
    BundleDone,
}

/// What an answer is about.
#[derive(Debug)]
pub enum ReplyBody {
    Registered,
    Processed(ProcessBundleResponse),
    /// Anything else.
    Other,
}

/// An answer of a worker.
#[derive(Debug)]
pub struct InstructionReply {
    pub instruction_id: String,
    pub error: String,
    pub body: ReplyBody,
    /// The `Debug` form of the body as it came.
    pub shown: String,
}

/// What the answer to a registration means.
pub fn register_outcome(id: &str, reply: InstructionReply) -> (r: Result<ControlResponse, String>)
    ensures
        if reply.instruction_id@ != id@ {
            r matches Err(m) && m@ == "register ack id mismatch: expected "@ + id@ + (" got "@
                + reply.instruction_id@)
        } else if reply.body is Registered {
            r matches Ok(ControlResponse::BundleRegistered)
        } else if reply.error@.len() > 0 {
            r matches Err(m) && m@ == "register failed at worker: "@ + reply.error@
        } else {
            r matches Err(m) && m@ == "unexpected register response: "@ + reply.shown@
        },
{
    if !same_text(reply.instruction_id.as_str(), id) {
        let got: String = join2(" got ", reply.instruction_id.as_str());
        return Err(join3("register ack id mismatch: expected ", id, got.as_str()));
    }
    match reply.body {
        ReplyBody::Registered => Ok(ControlResponse::BundleRegistered),
        _ => {
            if !is_blank(reply.error.as_str()) {
                return Err(join2("register failed at worker: ", reply.error.as_str()));
            }
            Err(join2("unexpected register response: ", reply.shown.as_str()))
        },
    }
}

/// What the answer to the processing of a bundle means.
pub fn bundle_outcome(bundle_id: &str, reply: InstructionReply) -> (r: Result<
    ControlResponse,
    String,
>)
    ensures
        if reply.instruction_id@ != bundle_id@ {
            r matches Err(m) && m@ == "bundle response id mismatch: expected "@ + bundle_id@ + (
            " got "@ + reply.instruction_id@)
        } else if reply.body is Processed {
            r matches Ok(ControlResponse::ProcessBundleSuccess(s)) && s == reply.body->Processed_0
        } else if reply.error@.len() > 0 {
            r matches Err(m) && m@ == "process bundle failed at worker: "@ + reply.error@
        } else {
            r matches Err(m) && m@ == "unexpected bundle response: "@ + reply.shown@
        },
{
    if !same_text(reply.instruction_id.as_str(), bundle_id) {
        let got: String = join2(" got ", reply.instruction_id.as_str());
        return Err(join3("bundle response id mismatch: expected ", bundle_id, got.as_str()));
    }
    match reply.body {
        ReplyBody::Processed(s) => Ok(ControlResponse::ProcessBundleSuccess(s)),
        _ => {
            if !is_blank(reply.error.as_str()) {
                return Err(join2("process bundle failed at worker: ", reply.error.as_str()));
            }
            Err(join2("unexpected bundle response: ", reply.shown.as_str()))
        },
    }
}

/// Whether a text is empty.
fn is_blank(s: &str) -> (r: bool)
    ensures
        r == (s@.len() == 0),
{
    proof {
        reveal_strlit("");
    }
    let r: bool = same_text(s, "");
    proof {
        if s@.len() == 0 {
            assert(s@ =~= ""@);
        }
    }
    r
}

} // verus!
