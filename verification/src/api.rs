//! The local interface for other programs on the device.
pub mod handler;
pub mod preview;
pub mod reply;
pub mod request;
pub mod routes;
