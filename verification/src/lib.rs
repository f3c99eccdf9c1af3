//! A multi-session pseudo-terminal multiplexer: shells spawned on PTYs,
//! their live handles kept in a registry keyed by opaque session
//! identifiers, with output pumped out as events and sessions torn down
//! exactly once, by an explicit close or by the reaper after the process
//! exits. The registry logic, the environment construction and the pump and
//! reaper transitions are verified; the OS-level PTY capability itself is
//! reached through a small set of trusted wrappers.

pub mod errors;
pub mod events;
pub mod manager;
pub mod pty;
pub mod registry;
pub mod shell_env;
