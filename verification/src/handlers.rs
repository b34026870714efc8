use vstd::prelude::*;

use crate::shell::{toplevel_state_raw, ToplevelState};

verus! {

/// Handles requests on a `wl_region`; it answers none of them.
pub struct RegionHandler;

impl RegionHandler {
    pub fn new() -> (h: RegionHandler)
        ensures
            h == RegionHandler,
    {
        RegionHandler {}
    }
}

/// Handles requests on a `wl_shell_surface`; it answers none of them.
pub struct ShellSurfaceHandler;

impl ShellSurfaceHandler {
    pub fn new() -> (h: ShellSurfaceHandler)
        ensures
            h == ShellSurfaceHandler,
    {
        ShellSurfaceHandler {}
    }
}

/// Handles requests on a `wl_shell`.
pub struct ShellHandler;

impl ShellHandler {
    /// A request for a shell surface: the new `wl_shell_surface` is served by
    /// a fresh `ShellSurfaceHandler`.
    pub fn get_shell_surface(&mut self) -> (h: ShellSurfaceHandler)
        ensures
            h == ShellSurfaceHandler,
    {
        ShellSurfaceHandler::new()
    }
}

/// Handles requests on an xdg toplevel; it answers none of them.
pub struct XdgTopLevelHandler;

impl XdgTopLevelHandler {
    pub fn new() -> (h: XdgTopLevelHandler)
        ensures
            h == XdgTopLevelHandler,
    {
        XdgTopLevelHandler {}
    }
}

/// The two configure events that make a new xdg toplevel visible: one to the
/// toplevel (size and states) and one to its xdg surface (serial).
#[derive(Debug)]
pub struct XdgToplevelConfigure {
    pub width: i32,
    pub height: i32,
    pub states: Vec<u8>,
    pub surface_serial: u32,
}

/// Handles requests on an xdg surface, numbering the configures it sends.
pub struct XdgShellSurfaceHandler {
    serial: u32,
}

impl XdgShellSurfaceHandler {
    /// The serial that the next configure of the surface carries.
    pub closed spec fn next_serial(&self) -> u32 {
        self.serial
    }

    /// A handler that has sent no configure yet.
    pub fn new() -> (h: XdgShellSurfaceHandler)
        ensures
            h.next_serial() == 0,
    {
        XdgShellSurfaceHandler { serial: 0 }
    }

    /// A request to make the surface a toplevel: the toplevel is served by a
    /// fresh `XdgTopLevelHandler` and configured with size 0 by 0 and the
    /// activated state, and the surface with the next serial, which then
    /// moves on by one.
    pub fn get_toplevel(&mut self) -> (result: (XdgTopLevelHandler, XdgToplevelConfigure))
        requires
            old(self).next_serial() < u32::MAX,
        ensures
            final(self).next_serial() == old(self).next_serial() + 1,
            result.0 == XdgTopLevelHandler,
            result.1.width == 0,
            result.1.height == 0,
            result.1.states@ == seq![toplevel_state_raw(ToplevelState::Activated) as u8],
            result.1.surface_serial == old(self).next_serial(),
    {
        let handler = XdgTopLevelHandler::new();
        let mut states: Vec<u8> = Vec::new();
        let raw = ToplevelState::Activated.to_raw();
        states.push(raw as u8);
        let configure = XdgToplevelConfigure { width: 0, height: 0, states: states, surface_serial: self.serial };
        self.serial = self.serial + 1;
        (handler, configure)
    }
}

/// Handles requests on an xdg shell.
pub struct XdgShellHandler;

impl XdgShellHandler {
    /// A request for an xdg surface: the new surface is served by a fresh
    /// `XdgShellSurfaceHandler`.
    pub fn get_xdg_surface(&mut self) -> (h: XdgShellSurfaceHandler)
        ensures
            h.next_serial() == 0,
    {
        XdgShellSurfaceHandler::new()
    }
}

} // verus!
