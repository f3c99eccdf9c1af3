use vstd::prelude::*;

verus! {

/// A terminal session as seen by callers: its opaque identifier.
pub struct TerminalSession {
    pub id: String,
}

/// One chunk of terminal output, tagged with the session it came from.
#[derive(Debug)]
pub struct TerminalOutput {
    pub session_id: String,
    pub data: String,
}

} // verus!
