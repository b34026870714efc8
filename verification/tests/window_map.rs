use wayland_http::window_map::WindowMap;
use wayland_http::window_manager::WindowError;

fn probe(t: &&'static str) -> (Option<i32>, Option<String>) {
    (Some(t.len() as i32), Some(t.to_string()))
}

#[test]
fn inserted_windows_get_ids_from_zero() {
    let mut map: WindowMap<&'static str> = WindowMap::new();
    map.insert("a");
    map.insert("bb");
    assert_eq!(map.get(0), Some(&"a"));
    assert_eq!(map.get(1), Some(&"bb"));
    assert_eq!(map.get(2), None);
}

#[test]
fn metadata_lists_every_window_in_id_order() {
    let mut map: WindowMap<&'static str> = WindowMap::new();
    map.insert("term");
    map.insert("editor");
    let all = map.get_windows_metadata(probe);
    assert_eq!(all.len(), 2);
    assert_eq!(all[0].id, 0);
    assert_eq!(all[0].pid, Some(4));
    assert_eq!(all[0].title.as_deref(), Some("term"));
    assert_eq!(all[1].id, 1);
    assert_eq!(all[1].title.as_deref(), Some("editor"));
}

#[test]
fn metadata_of_one_window_agrees_with_the_listing() {
    let mut map: WindowMap<&'static str> = WindowMap::new();
    map.insert("x");
    map.insert("yy");
    let all = map.get_windows_metadata(probe);
    for m in all {
        let one = map.get_window_metadata(m.id, probe).unwrap();
        assert_eq!(one.id, m.id);
        assert_eq!(one.pid, m.pid);
        assert_eq!(one.title, m.title);
    }
    assert!(map.get_window_metadata(7, probe).is_none());
}

#[test]
fn refresh_drops_dead_windows_and_keeps_ids() {
    let mut map: WindowMap<&'static str> = WindowMap::new();
    map.insert("alive");
    map.insert("dead");
    map.insert("alive too");
    map.refresh(|t: &&'static str| !t.starts_with("dead"));
    assert_eq!(map.get(0), Some(&"alive"));
    assert_eq!(map.get(1), None);
    assert_eq!(map.get(2), Some(&"alive too"));
    assert_eq!(map.get_windows_metadata(probe).len(), 2);
}

#[test]
fn ids_are_not_given_twice_after_a_refresh() {
    let mut map: WindowMap<&'static str> = WindowMap::new();
    map.insert("dead");
    map.refresh(|_t: &&'static str| false);
    map.insert("new");
    assert_eq!(map.get(0), None);
    assert_eq!(map.get(1), Some(&"new"));
}

#[test]
fn surface_for_a_missing_window_fails() {
    let mut map: WindowMap<&'static str> = WindowMap::new();
    map.insert("with surface");
    map.insert("without");
    let surface_of = |t: &&'static str| if t.starts_with("with ") { Some(t.len()) } else { None };
    assert_eq!(map.surface_for(0, surface_of), Ok(12));
    assert_eq!(map.surface_for(1, surface_of), Err(WindowError::NoSurface(1)));
    assert_eq!(map.surface_for(5, surface_of), Err(WindowError::NoSurface(5)));
    assert_eq!(map.get_surface(0, surface_of), Some(12));
    assert_eq!(map.get_surface(1, surface_of), None);
}
