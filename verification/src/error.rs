//! The error taxonomy of the runtime.

use vstd::prelude::*;

verus! {

/// Everything that can go wrong while building or running a graph.
///
/// `SlotAlreadyBound` and `TypeMismatch` are fatal build-time errors raised
/// before any node starts. `ChannelClosed` is a write to a node that has
/// stopped. `EndOfStream` is the expected termination of a source and starts
/// a graceful drain. `ProcessorError` is a business-logic failure of one
/// invocation. `SynchronizationTimeout` marks a required slot that never
/// matched before the maximum wait.
#[derive(Clone, Copy, Debug, PartialEq, Eq, Structural)]
pub enum PipeError {
    ChannelClosed,
    SlotAlreadyBound,
    TypeMismatch,
    EndOfStream,
    ProcessorError,
    SynchronizationTimeout,
}

impl PipeError {
    /// A short, stable label for logs and messages.
    pub fn describe(&self) -> (s: &'static str)
        ensures
            *self is ChannelClosed ==> s@ == "channel closed"@,
            *self is SlotAlreadyBound ==> s@ == "slot already bound"@,
            *self is TypeMismatch ==> s@ == "type mismatch"@,
            *self is EndOfStream ==> s@ == "end of stream"@,
            *self is ProcessorError ==> s@ == "processor error"@,
            *self is SynchronizationTimeout ==> s@ == "synchronization timeout"@,
    {
        proof {
            reveal_strlit("channel closed");
            reveal_strlit("slot already bound");
            reveal_strlit("type mismatch");
            reveal_strlit("end of stream");
            reveal_strlit("processor error");
            reveal_strlit("synchronization timeout");
        }
        match self {
            PipeError::ChannelClosed => "channel closed",
            PipeError::SlotAlreadyBound => "slot already bound",
            PipeError::TypeMismatch => "type mismatch",
            PipeError::EndOfStream => "end of stream",
            PipeError::ProcessorError => "processor error",
            PipeError::SynchronizationTimeout => "synchronization timeout",
        }
    }
}

} // verus!
