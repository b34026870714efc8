//! The verified core of a Wayland compositor that serves its windows over
//! HTTP and WebSocket.

pub mod buffer;
pub mod handlers;
pub mod http_api;
pub mod idata;
pub mod pixel;
pub mod shell;
pub mod window_manager;
pub mod window_map;
