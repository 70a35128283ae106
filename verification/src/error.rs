use vstd::prelude::*;

use crate::text::copy_string;

verus! {

/// Errors raised by the core library.
#[derive(Debug, PartialEq, Eq)]
pub enum CoreError {
    /// A path could not be resolved; carries the underlying reason.
    PathInvalid(String),
    /// A path resolved to a location outside the agent folder.
    PathOutsideAgentFolder,
    /// No agent with the given id exists.
    AgentNotFound(String),
    /// A model, document or provider operation failed; carries the message.
    Llm(String),
    /// An I/O operation failed; carries the message.
    Io(String),
    /// The run was cancelled.
    Cancelled,
}

impl CoreError {
    /// True for the variant that signals a boundary violation.
    pub fn is_outside_agent_folder(&self) -> (b: bool)
        ensures
            b <==> (*self is PathOutsideAgentFolder),
    {
        match self {
            CoreError::PathOutsideAgentFolder => true,
            _ => false,
        }
    }

    /// A copy of the error.
    pub fn duplicate(&self) -> (r: CoreError)
        ensures
            r == *self,
    {
        match self {
            CoreError::PathInvalid(m) => CoreError::PathInvalid(copy_string(m)),
            CoreError::PathOutsideAgentFolder => CoreError::PathOutsideAgentFolder,
            CoreError::AgentNotFound(m) => CoreError::AgentNotFound(copy_string(m)),
            CoreError::Llm(m) => CoreError::Llm(copy_string(m)),
            CoreError::Io(m) => CoreError::Io(copy_string(m)),
            CoreError::Cancelled => CoreError::Cancelled,
        }
    }
}

/// `e` is a model or document failure with message `msg`.
pub open spec fn llm_error(e: CoreError, msg: Seq<char>) -> bool {
    e matches CoreError::Llm(m) && m@ == msg
}

/// `e` is an invalid-path failure with message `msg`.
pub open spec fn path_error(e: CoreError, msg: Seq<char>) -> bool {
    e matches CoreError::PathInvalid(m) && m@ == msg
}

} // verus!
