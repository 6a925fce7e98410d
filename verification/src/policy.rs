use vstd::prelude::*;

verus! {

/// Which kind of request a reader-writer lock favours.
#[derive(PartialEq, Eq, Structural, Clone, Copy, Debug)]
pub enum Preference {
    /// Readers-preferred
    /// * Readers must wait when a writer is active.
    /// * Writers must wait when a reader is active or waiting, or a writer is active.
    Reader,
    /// Writers-preferred:
    /// * Readers must wait when a writer is active or waiting.
    /// * Writer must wait when a reader or writer is active.
    Writer,
}

/// In which order to schedule threads
#[derive(PartialEq, Eq, Structural, Clone, Copy, Debug)]
pub enum Order {
    /// First in first out
    Fifo,
    /// Last in first out
    Lifo,
}

} // verus!
