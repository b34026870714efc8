use wayland_http::http_api::{is_websocket_upgrade, parse_window_id, route_window, window_json, HttpApiError, WindowRoute, WindowStreamWs, WsAction, WsMessage};
use wayland_http::window_manager::{Buffer, WindowError, WindowMetaData};

#[test]
fn errors_answer_with_their_status() {
    assert_eq!(HttpApiError::InternalError.status_code(), 500);
    assert_eq!(HttpApiError::InvalidWindowId.status_code(), 400);
    assert_eq!(HttpApiError::WindowIdNotExist.status_code(), 404);
    assert_eq!(HttpApiError::InternalError.description(), "internal error");
    assert_eq!(HttpApiError::InvalidWindowId.description(), "invalid window id");
    assert_eq!(HttpApiError::WindowIdNotExist.description(), "window id not exist");
}

#[test]
fn websocket_upgrade_is_found_in_any_case() {
    assert!(is_websocket_upgrade(Some(b"websocket")));
    assert!(is_websocket_upgrade(Some(b"WebSocket")));
    assert!(is_websocket_upgrade(Some(b"h2c, WEBSOCKET")));
    assert!(!is_websocket_upgrade(Some(b"h2c")));
    assert!(!is_websocket_upgrade(Some(b"websocke")));
    assert!(!is_websocket_upgrade(None));
}

#[test]
fn a_header_that_is_no_text_is_no_upgrade() {
    assert!(!is_websocket_upgrade(Some(b"websocket\xff")));
    assert!(!is_websocket_upgrade(Some(b"web\nsocket websocket")));
    assert!(is_websocket_upgrade(Some(b"\twebsocket")));
}

#[test]
fn window_ids_are_read_as_u64() {
    assert_eq!(parse_window_id(b"12"), Ok(12));
    assert_eq!(parse_window_id(b"+7"), Ok(7));
    assert_eq!(parse_window_id(b"007"), Ok(7));
    assert_eq!(parse_window_id(b"18446744073709551615"), Ok(u64::MAX));
    assert_eq!(parse_window_id(b"18446744073709551616"), Err(HttpApiError::InvalidWindowId));
    assert_eq!(parse_window_id(b""), Err(HttpApiError::InvalidWindowId));
    assert_eq!(parse_window_id(b"+"), Err(HttpApiError::InvalidWindowId));
    assert_eq!(parse_window_id(b"-1"), Err(HttpApiError::InvalidWindowId));
    assert_eq!(parse_window_id(b"1a"), Err(HttpApiError::InvalidWindowId));
}

#[test]
fn window_ids_read_as_std_reads_them() {
    for text in ["0", "42", "+42", "++1", " 1", "99999999999999999999", "abc", "-0"] {
        let ours = parse_window_id(text.as_bytes()).ok();
        assert_eq!(ours, text.parse::<u64>().ok(), "{}", text);
    }
}

#[test]
fn written_ids_read_back() {
    for id in [0u64, 9, 10, 12345, u64::MAX] {
        assert_eq!(parse_window_id(id.to_string().as_bytes()), Ok(id));
    }
}

#[test]
fn window_requests_are_routed() {
    assert_eq!(route_window(None, b"3"), Ok(WindowRoute::Json(3)));
    assert_eq!(route_window(Some(b"websocket"), b"3"), Ok(WindowRoute::WebSocket(3)));
    assert_eq!(route_window(Some(b"websocket"), b"x"), Err(HttpApiError::InvalidWindowId));
    assert_eq!(route_window(None, b""), Err(HttpApiError::InvalidWindowId));
}

#[test]
fn a_missing_window_is_not_found() {
    assert!(matches!(window_json(None), Err(HttpApiError::WindowIdNotExist)));
    let m = WindowMetaData { id: 1, pid: Some(5), title: None };
    assert!(matches!(window_json(Some(m)), Ok(WindowMetaData { id: 1, pid: Some(5), title: None })));
}

#[test]
fn websocket_messages_are_answered() {
    let ws = WindowStreamWs::new(9);
    assert_eq!(ws.window_id(), 9);
    assert!(matches!(ws.handle_message(WsMessage::Ping(vec![1, 2])), Some(WsAction::Pong(p)) if p == vec![1, 2]));
    assert!(matches!(ws.handle_message(WsMessage::Text("next".to_string())), Some(WsAction::NextFrame)));
    assert!(matches!(ws.handle_message(WsMessage::Binary(vec![3])), Some(WsAction::Binary(b)) if b == vec![3]));
    assert!(matches!(ws.handle_message(WsMessage::Closed), Some(WsAction::Stop)));
    assert!(matches!(ws.handle_message(WsMessage::Error), Some(WsAction::Stop)));
    assert!(ws.handle_message(WsMessage::Pong(vec![])).is_none());
    assert!(ws.handle_message(WsMessage::Other).is_none());
}

#[test]
fn a_commit_sends_the_size_then_the_pixels() {
    let ws = WindowStreamWs::new(0);
    let actions = ws.handle_commit(Ok(Buffer::Update { data: vec![1, 2, 3, 4], size: (640, 480) }));
    assert_eq!(actions.len(), 2);
    match &actions[0] {
        WsAction::Text(t) => assert_eq!(t, "{\"height\":480,\"width\":640}"),
        other => panic!("unexpected {:?}", other),
    }
    match &actions[1] {
        WsAction::Binary(b) => assert_eq!(b, &vec![1, 2, 3, 4]),
        other => panic!("unexpected {:?}", other),
    }
}

#[test]
fn a_commit_without_a_frame_sends_nothing() {
    let ws = WindowStreamWs::new(0);
    assert!(ws.handle_commit(Ok(Buffer::Erase)).is_empty());
    assert!(ws.handle_commit(Err(WindowError::NoSuchBuffer)).is_empty());
    assert!(ws.handle_commit(Err(WindowError::NoSurface(0))).is_empty());
}
