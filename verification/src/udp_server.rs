//! The packets of the UDP tracker protocol and their byte layouts.
pub mod action;
pub mod decode_error;
pub mod event;
pub mod payload;
pub mod request;
pub mod response;
pub mod tracker_request;
