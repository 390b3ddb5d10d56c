//! The request/response protocol: what a decoded request line asks for,
//! how a switch request is routed by identifier shape, and the response
//! each outcome produces.

use vstd::prelude::*;

use crate::catalog::LayoutInfo;
use crate::errors::{message_spec, LayoutError};
use crate::ident::{
    classify, decode_composite, decode_composite_spec, is_composite_spec, parse_legacy_spec,
    parse_legacy_handle, CompositeId, IdKind,
};
use crate::text::str_eq;

verus! {

/// One request from the host.
#[derive(Debug)]
pub struct Request {
    pub action: String,
    pub payload: String,
}

/// Response status over the wire.
#[derive(Debug, PartialEq, Eq, Structural, Clone, Copy)]
pub enum Status {
    Ready,
    Okay,
    Failed,
}

pub open spec fn status_text_spec(s: Status) -> Seq<char> {
    match s {
        Status::Ready => "ready"@,
        Status::Okay => "ok"@,
        Status::Failed => "error"@,
    }
}

impl Status {
    /// The wire word for this status.
    pub fn text(&self) -> (r: String)
        ensures
            r@ == status_text_spec(*self),
    {
        match self {
            Status::Ready => String::from_str("ready"),
            Status::Okay => String::from_str("ok"),
            Status::Failed => String::from_str("error"),
        }
    }
}

/// One response to the host; `data` only accompanies a successful list.
#[derive(Debug)]
pub struct Response {
    pub status: Status,
    pub message: String,
    pub data: Option<Vec<LayoutInfo>>,
}

/// What the service decides to do about one input line.
#[derive(Debug, PartialEq, Eq, Structural, Clone, Copy)]
pub enum Plan {
    /// The line did not decode to a request: emit nothing at all.
    Ignore,
    DoList,
    DoSwitch,
    DoUnknown,
}

pub open spec fn plan_of_action(a: Seq<char>) -> Plan {
    if a == "switch"@ {
        Plan::DoSwitch
    } else if a == "list"@ {
        Plan::DoList
    } else {
        Plan::DoUnknown
    }
}

/// Decides what one input line asks for: nothing at all when the line
/// did not decode to a request, otherwise by its action word, unknown
/// words included.
pub fn plan_line(req: &Option<Request>) -> (p: Plan)
    ensures
        match req {
            None => p == Plan::Ignore,
            Some(r) => p == plan_of_action(r.action@),
        },
{
    match req {
        None => Plan::Ignore,
        Some(r) => {
            if str_eq(r.action.as_str(), "switch") {
                Plan::DoSwitch
            } else if str_eq(r.action.as_str(), "list") {
                Plan::DoList
            } else {
                Plan::DoUnknown
            }
        },
    }
}

/// Where a switch request is sent: the rich text-services mechanism with
/// a decoded triple, or the legacy mechanism with a raw handle.
#[derive(Debug, PartialEq, Eq, Structural, Clone, Copy)]
pub enum SwitchRoute {
    Rich(CompositeId),
    Legacy(u32),
}

/// Composite-shaped payloads go to the rich switcher with the decoded
/// triple, or fail with the decode's own error; every other payload is
/// read as a legacy hex handle.
pub open spec fn switch_plan_spec(s: Seq<char>) -> Result<SwitchRoute, LayoutError> {
    if is_composite_spec(s) {
        match decode_composite_spec(s) {
            Ok(c) => Ok(SwitchRoute::Rich(c)),
            Err(e) => Err(e),
        }
    } else {
        match parse_legacy_spec(s) {
            Ok(h) => Ok(SwitchRoute::Legacy(h)),
            Err(e) => Err(e),
        }
    }
}

/// Routes a switch payload by its shape; a payload that begins with
/// `TSF:` never reaches the legacy mechanism.
pub fn plan_switch(payload: &str) -> (r: Result<SwitchRoute, LayoutError>)
    ensures
        r == switch_plan_spec(payload@),
{
    match classify(payload) {
        IdKind::Composite => {
            match decode_composite(payload) {
                Ok(c) => Ok(SwitchRoute::Rich(c)),
                Err(e) => Err(e),
            }
        },
        IdKind::Legacy => {
            match parse_legacy_handle(payload) {
                Ok(h) => Ok(SwitchRoute::Legacy(h)),
                Err(e) => Err(e),
            }
        },
    }
}

/// The startup banner.
pub fn ready_response() -> (r: Response)
    ensures
        r.status == Status::Ready,
        r.message@ == "ALS Sidecar v1.6 (Better Names)"@,
        r.data is None,
{
    Response {
        status: Status::Ready,
        message: String::from_str("ALS Sidecar v1.6 (Better Names)"),
        data: None,
    }
}

/// The reply to an action word the service does not know.
pub fn unknown_response() -> (r: Response)
    ensures
        r.status == Status::Okay,
        r.message@ == "Unknown command"@,
        r.data is None,
{
    Response { status: Status::Okay, message: String::from_str("Unknown command"), data: None }
}

/// The reply to a switch request, given how the dispatch and the OS
/// boundary fared: a confirmation naming the payload, or the failure's
/// message.  Neither carries data.
pub fn switch_response(payload: &str, outcome: &Result<(), LayoutError>) -> (r: Response)
    ensures
        match outcome {
            Ok(_) => r.status == Status::Okay && r.message@ == "Switched to "@ + payload@
                && r.data is None,
            Err(e) => r.status == Status::Failed && r.message@ == message_spec(*e)
                && r.data is None,
        },
{
    match outcome {
        Ok(_) => {
            let mut m = String::from_str("Switched to ");
            m.append(payload);
            Response { status: Status::Okay, message: m, data: None }
        },
        Err(e) => Response { status: Status::Failed, message: e.message(), data: None },
    }
}

/// The reply to a list request: the merged catalog with an empty message
/// on success, or the failure's message with no data.
pub fn list_response(merged: Result<Vec<LayoutInfo>, LayoutError>) -> (r: Response)
    ensures
        match merged {
            Ok(c) => r.status == Status::Okay && r.message@ == Seq::<char>::empty() && (r.data
                matches Some(d) && d == c),
            Err(e) => r.status == Status::Failed && r.message@ == message_spec(e)
                && r.data is None,
        },
{
    match merged {
        Ok(c) => Response { status: Status::Okay, message: String::new(), data: Some(c) },
        Err(e) => Response { status: Status::Failed, message: e.message(), data: None },
    }
}

} // verus!
