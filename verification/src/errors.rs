use vstd::prelude::*;

verus! {

/// Why a session operation failed.
///
/// `SpawnError` is fatal to the `create` call that produced it and to nothing
/// else; `SessionNotFound` reports a caller error with no side effect;
/// `WriteError` and `ResizeError` surface an underlying terminal failure on an
/// otherwise valid session, which stays registered.
#[derive(Clone, Copy, Debug, PartialEq, Eq)]
pub enum TerminalError {
    SpawnError,
    SessionNotFound,
    WriteError,
    ResizeError,
}

} // verus!
