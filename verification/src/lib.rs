//! A reader-writer lock, as the decisions that a mutex-and-condition-variable
//! lock makes (who may enter, who waits, whom a release wakes), and the
//! decisions of a small command shell (how a line splits into a command line,
//! what a built-in does, what `history` and `jobs` print).
use vstd::prelude::*;

pub mod policy;
pub mod state;
pub mod lock;
pub mod laws;
pub mod text;
pub mod command;
pub mod jobs;
pub mod shell;

pub use crate::lock::{RwLock, RwLockReadGuard, RwLockWriteGuard};
pub use crate::policy::{Order, Preference};

verus! {

} // verus!
