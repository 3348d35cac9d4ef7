//! Errors of starting the workers.

use vstd::prelude::*;

use vstd::string::StringExecFns;

use crate::util::{ascii_text, decimal, decimal_string};

verus! {

#[derive(Debug)]
pub enum RuntimeError {
    WorkerStartFailed { id: usize, reason: String },
    ThreadPinFailed { id: usize, core: usize },
}

/// The message of a runtime error.
pub open spec fn runtime_error_text(e: RuntimeError) -> Seq<char> {
    match e {
        RuntimeError::WorkerStartFailed { id, reason } => "worker "@ + ascii_text(decimal(id as nat))
            + " failed to start: "@ + reason@,
        RuntimeError::ThreadPinFailed { id, core } => "worker "@ + ascii_text(decimal(id as nat))
            + " failed to pin to core "@ + ascii_text(decimal(core as nat)),
    }
}

impl RuntimeError {
    /// The error's message.
    pub fn message(&self) -> (r: String)
        ensures
            r@ == runtime_error_text(*self),
    {
        let mut out = String::from_str("worker ");
        match self {
            RuntimeError::WorkerStartFailed { id, reason } => {
                out.append(decimal_string(*id).as_str());
                out.append(" failed to start: ");
                out.append(reason.as_str());
            },
            RuntimeError::ThreadPinFailed { id, core } => {
                out.append(decimal_string(*id).as_str());
                out.append(" failed to pin to core ");
                out.append(decimal_string(*core).as_str());
            },
        }
        out
    }
}

pub type RuntimeResult<T> = Result<T, RuntimeError>;

} // verus!
