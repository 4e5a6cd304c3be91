//! A combinator for graceful shutdown, as a state machine driven by its host.
//!
//! The combinator waits until the first of its triggers or tasks resolves, then
//! runs a cleanup action to completion, then joins the remaining tasks from the
//! last to the first. It never touches the computations themselves: each step
//! names the one computation that the host must poll next, and the host answers
//! whether it resolved.
//!
//! Each phase change ends the evaluation call that made it with a request to be
//! evaluated again; what the new phase does is done on that next call.
mod combinator;
pub mod laws;
pub mod model;

pub use combinator::ShutdownFuture;
pub use model::{Cursor, Phase, Probe, ShutdownState, Step};
