use wayland_http::idata::{frame_time_millis, keep_after_send, next_frame, next_frame_at, open_window_stream, SendOutcome, SenderRegistry, SurfaceData};
use wayland_http::window_map::WindowMap;
use wayland_http::window_manager::{WindowError, WindowEvent};

#[test]
fn surface_data_starts_empty() {
    let data: SurfaceData<u8> = SurfaceData::default();
    assert_eq!(data.id, 0);
    assert!(data.callback_queue.is_empty());
}

#[test]
fn frame_callbacks_come_out_oldest_first() {
    let mut data: SurfaceData<&'static str> = SurfaceData::default();
    data.queue_frame_callback("first");
    data.queue_frame_callback("second");
    assert_eq!(data.take_frame_callback(), Some("first"));
    assert_eq!(data.take_frame_callback(), Some("second"));
    assert_eq!(data.take_frame_callback(), None);
}

#[test]
fn frame_time_is_milliseconds_cut_to_32_bits() {
    assert_eq!(frame_time_millis(1, 500_000_000), 1500);
    assert_eq!(frame_time_millis(0, 999_999), 0);
    assert_eq!(frame_time_millis(1_700_000_000, 123_456_789), ((1_700_000_000_000i64 + 123) % 4_294_967_296) as u32);
    assert_eq!(frame_time_millis(-1, 0), 4_294_966_296);
}

#[test]
fn next_frame_without_a_callback_fails() {
    let mut data: SurfaceData<u8> = SurfaceData::default();
    assert_eq!(next_frame(&mut data, 3).err(), Some(WindowError::NoCallback(3)));
}

#[test]
fn next_frame_takes_the_oldest_callback() {
    let mut data: SurfaceData<u8> = SurfaceData::default();
    data.queue_frame_callback(7);
    data.queue_frame_callback(8);
    let (callback, _millis) = next_frame(&mut data, 0).unwrap();
    assert_eq!(callback, 7);
    assert_eq!(data.callback_queue.len(), 1);
}

#[test]
fn only_a_disconnected_watcher_is_dropped() {
    assert!(keep_after_send(&SendOutcome::Sent));
    assert!(keep_after_send(&SendOutcome::Full));
    assert!(!keep_after_send(&SendOutcome::Disconnected));
}

#[test]
fn commit_without_a_watcher_does_nothing() {
    let mut registry = SenderRegistry::new();
    assert_eq!(registry.commit(4), None);
}

#[test]
fn commit_reaches_the_stream() {
    let mut registry = SenderRegistry::new();
    let mut receiver = registry.open_stream(4).into_receiver();
    assert_eq!(registry.commit(4), Some(SendOutcome::Sent));
    assert_eq!(receiver.try_next().unwrap(), Some(WindowEvent::Commit));
}

#[test]
fn commit_to_a_closed_stream_drops_the_watcher() {
    let mut registry = SenderRegistry::new();
    let receiver = registry.open_stream(2).into_receiver();
    drop(receiver);
    assert_eq!(registry.commit(2), Some(SendOutcome::Disconnected));
    assert_eq!(registry.commit(2), None);
}

#[test]
fn commit_to_a_full_stream_keeps_the_watcher() {
    let mut registry = SenderRegistry::new();
    let _receiver = registry.open_stream(1);
    // ten free slots plus the one that the sender owns
    for _ in 0..11 {
        assert_eq!(registry.commit(1), Some(SendOutcome::Sent));
    }
    assert_eq!(registry.commit(1), Some(SendOutcome::Full));
    assert_eq!(registry.commit(1), Some(SendOutcome::Full));
}

#[test]
fn next_frame_at_stamps_the_oldest_callback() {
    let mut data: SurfaceData<u8> = SurfaceData::default();
    data.queue_frame_callback(1);
    data.queue_frame_callback(2);
    assert_eq!(next_frame_at(&mut data, 0, 2, 5_000_000), Ok((1, 2005)));
    assert_eq!(next_frame_at(&mut data, 0, 2, 5_000_000), Ok((2, 2005)));
    assert_eq!(next_frame_at(&mut data, 6, 2, 5_000_000), Err(WindowError::NoCallback(6)));
}

#[test]
fn next_frame_at_a_clock_beyond_range_keeps_the_callback() {
    let mut data: SurfaceData<u8> = SurfaceData::default();
    data.queue_frame_callback(1);
    assert_eq!(next_frame_at(&mut data, 0, i64::MAX, 0), Err(WindowError::ClockOutOfRange));
    assert_eq!(next_frame_at(&mut data, 0, 9_223_372_036_854_775, 808_000_000), Err(WindowError::ClockOutOfRange));
    assert_eq!(data.callback_queue.len(), 1);
    let (callback, millis) = next_frame_at(&mut data, 0, 9_223_372_036_854_775, 807_999_999).unwrap();
    assert_eq!(callback, 1);
    assert_eq!(millis, (i64::MAX % 4_294_967_296) as u32);
}

#[test]
fn next_frame_without_a_callback_keeps_the_queue_empty() {
    let mut data: SurfaceData<u8> = SurfaceData::default();
    assert_eq!(next_frame_at(&mut data, 1, 0, 0), Err(WindowError::NoCallback(1)));
    assert!(data.callback_queue.is_empty());
}

#[test]
fn a_window_stream_watches_the_window_surface() {
    let mut windows: WindowMap<Option<u64>> = WindowMap::new();
    windows.insert(Some(40));
    windows.insert(None);
    let mut registry = SenderRegistry::new();
    let surface_id_of = |t: &Option<u64>| *t;
    let mut receiver = open_window_stream(&windows, &mut registry, 0, surface_id_of).unwrap().into_receiver();
    assert!(open_window_stream(&windows, &mut registry, 1, surface_id_of).is_none());
    assert!(open_window_stream(&windows, &mut registry, 9, surface_id_of).is_none());
    assert_eq!(registry.commit(40), Some(SendOutcome::Sent));
    assert_eq!(receiver.try_next().unwrap(), Some(WindowEvent::Commit));
    assert_eq!(registry.commit(0), None);
}

#[test]
fn a_new_stream_replaces_the_old_watcher() {
    let mut registry = SenderRegistry::new();
    let mut first = registry.open_stream(3).into_receiver();
    let mut second = registry.open_stream(3).into_receiver();
    assert_eq!(registry.commit(3), Some(SendOutcome::Sent));
    assert_eq!(second.try_next().unwrap(), Some(WindowEvent::Commit));
    // the first stream's sender was dropped: it ends without an event
    assert_eq!(first.try_next().unwrap(), None);
}
