use wayland_http::handlers::{RegionHandler, ShellHandler, ShellSurfaceHandler, XdgShellHandler, XdgShellSurfaceHandler, XdgTopLevelHandler};
use wayland_http::shell::{change_display_state, new_popup, ShellSerials, ToplevelState};

#[test]
fn toplevels_get_surface_ids_and_serials_in_turn() {
    let mut s = ShellSerials::new();
    let (id0, c0) = s.new_toplevel(true);
    let (none, c1) = s.new_toplevel(false);
    let (id1, c2) = s.new_toplevel(true);
    assert_eq!(id0, Some(0));
    assert_eq!(none, None);
    assert_eq!(id1, Some(1));
    assert_eq!((c0.serial, c1.serial, c2.serial), (1, 2, 3));
    assert_eq!(c0.size, None);
    assert_eq!(c0.states, vec![ToplevelState::Activated]);
    assert_eq!(s.serial, 3);
    assert_eq!(s.surface_id_serial, 2);
}

#[test]
fn popups_and_state_changes_get_fixed_answers() {
    let p = new_popup();
    assert_eq!((p.size, p.position, p.serial), ((10, 10), (10, 10), 42));
    let c = change_display_state();
    assert_eq!(c.size, None);
    assert!(c.states.is_empty());
    assert_eq!(c.serial, 42);
}

#[test]
fn toplevel_states_have_their_wire_values() {
    assert_eq!(ToplevelState::Maximized.to_raw(), 1);
    assert_eq!(ToplevelState::Fullscreen.to_raw(), 2);
    assert_eq!(ToplevelState::Resizing.to_raw(), 3);
    assert_eq!(ToplevelState::Activated.to_raw(), 4);
}

#[test]
fn xdg_surfaces_number_their_configures() {
    let mut shell = XdgShellHandler;
    let mut surface: XdgShellSurfaceHandler = shell.get_xdg_surface();
    let (_toplevel, first) = surface.get_toplevel();
    let (_toplevel, second) = surface.get_toplevel();
    assert_eq!(first.surface_serial, 0);
    assert_eq!(second.surface_serial, 1);
    assert_eq!((first.width, first.height), (0, 0));
    assert_eq!(first.states, vec![4u8]);
}

#[test]
fn plain_handlers_can_be_made() {
    let _r = RegionHandler::new();
    let _s = ShellSurfaceHandler::new();
    let _t = XdgTopLevelHandler::new();
    let mut shell = ShellHandler;
    let _surface: ShellSurfaceHandler = shell.get_shell_surface();
    let _x = XdgShellSurfaceHandler::new();
}

#[test]
fn a_fresh_shell_numbers_toplevels_from_zero_and_one() {
    let mut s = ShellSerials::new();
    for i in 1u32..=5 {
        let (id, configure) = s.new_toplevel(true);
        assert_eq!(id, Some(u64::from(i) - 1));
        assert_eq!(configure.serial, i);
    }
}
