//! Window and touch states that the application loop reports.
use vstd::prelude::*;

verus! {

/// The status of the application window.
#[derive(Debug, Clone, Copy, PartialEq, Eq, Structural)]
pub enum ApplicationEvent {
    /// The window has been woken up by another thread.
    Awakened,
    /// The window has been resumed.
    Resumed,
    /// The window has been suspended.
    Suspended,
    /// The window has been closed.
    Closed,
    /// The window gained focus of user input.
    GainFocus,
    /// The window lost focus of user input.
    LostFocus,
    /// The size of the window has changed.
    Resized(u32, u32),
    /// The position of the window has changed.
    Moved(u32, u32),
}

/// The phase of one touch on the screen.
#[derive(Debug, Clone, Copy, PartialEq, Eq, PartialOrd, Ord, Structural)]
pub enum TouchState {
    Start,
    Move,
    End,
    Cancel,
}

} // verus!
