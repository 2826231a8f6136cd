//! The control protocol: the requests a client sends, the replies it gets,
//! and what the daemon does with each request.

use vstd::prelude::*;

verus! {

/// A request of a client.
#[derive(Clone, Debug, PartialEq, Eq)]
pub enum IpcRequest {
    /// Evaluate an expression (a binding such as `main.a = b`).
    Eval(String),
    Reload,
    Monitor,
    LayerListen,
}

/// The reply to a request.
#[derive(Clone, Debug, PartialEq, Eq)]
pub enum IpcResponse {
    Success(String),
    Error(String),
}

/// What a request asks of the daemon's main loop.
#[derive(Clone, Debug, PartialEq, Eq)]
pub enum ControlCommand {
    /// Evaluate the expression; the main loop's answer is the reply.
    Eval(String),
    Reload,
}

/// What the daemon does with a request: the command it hands its main loop,
/// if any, and the reply it sends at once, if any.
pub struct IpcDispatch {
    pub command: Option<ControlCommand>,
    pub reply: Option<IpcResponse>,
}

/// The reply that says the daemon is reloading.
pub open spec fn reloading_reply() -> Seq<char> {
    "Reloading"@
}

/// The reply to a request the daemon does not serve.
pub open spec fn not_implemented_reply() -> Seq<char> {
    "Not implemented"@
}

/// The reply of the main loop to an evaluation.
pub open spec fn evaluated_reply() -> Seq<char> {
    "Evaluated"@
}

/// Decides what to do with `req`: an evaluation goes to the main loop, whose
/// answer is the reply; a reload goes to the main loop and is answered at
/// once with `Success("Reloading")`; any other request is answered with
/// `Error("Not implemented")`.
pub fn dispatch_request(req: IpcRequest) -> (d: IpcDispatch)
    ensures
        match req {
            IpcRequest::Eval(e) => {
                &&& d.command matches Some(ControlCommand::Eval(c)) && c@ == e@
                &&& d.reply is None
            },
            IpcRequest::Reload => {
                &&& d.command matches Some(ControlCommand::Reload)
                &&& d.reply matches Some(IpcResponse::Success(m)) && m@ == reloading_reply()
            },
            _ => {
                &&& d.command is None
                &&& d.reply matches Some(IpcResponse::Error(m)) && m@ == not_implemented_reply()
            },
        },
{
    match req {
        IpcRequest::Eval(e) => IpcDispatch { command: Some(ControlCommand::Eval(e)), reply: None },
        IpcRequest::Reload => IpcDispatch {
            command: Some(ControlCommand::Reload),
            reply: Some(IpcResponse::Success(String::from_str("Reloading"))),
        },
        _ => IpcDispatch { command: None, reply: Some(IpcResponse::Error(String::from_str("Not implemented"))) },
    }
}

/// The main loop's answer to an evaluation: `Success("Evaluated")`.
pub fn eval_reply() -> (r: IpcResponse)
    ensures
        r matches IpcResponse::Success(m) && m@ == evaluated_reply(),
{
    IpcResponse::Success(String::from_str("Evaluated"))
}

} // verus!
