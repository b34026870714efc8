use vstd::prelude::*;

verus! {

/// What the HTTP interface reports of one window.
#[derive(Debug)]
pub struct WindowMetaData {
    pub id: u64,
    pub pid: Option<i32>,
    pub title: Option<String>,
}

/// An event that a window's surface sends to those who watch it.
#[derive(Debug, PartialEq, Eq, Structural)]
pub enum WindowEvent {
    Commit,
}

/// The contents that a window shows: its pixels and size, or nothing.
#[derive(Debug)]
pub enum Buffer {
    Update { data: Vec<u8>, size: (u32, u32) },
    Erase,
}

/// Why a request to the window manager could not be served.
#[derive(Debug, PartialEq, Eq, Structural)]
pub enum WindowError {
    /// The lock that guards the window map was poisoned.
    LockWindowMaps,
    /// The lock that guards the compositor token was poisoned.
    LockCtoken,
    /// No window with this id has a surface.
    NoSurface(u64),
    /// The surface of this window has no pending frame callback.
    NoCallback(u64),
    /// The attached buffer does not live in shared memory.
    NotShmBuffer,
    /// No buffer was ever attached to the surface.
    NoSuchBuffer,
    /// The clock reading cannot be expressed in milliseconds.
    ClockOutOfRange,
}

} // verus!
