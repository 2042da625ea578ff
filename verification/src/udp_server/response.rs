//! What the tracker sends back.
pub mod announce;
pub mod connect;
pub mod error;
pub mod scrape;
