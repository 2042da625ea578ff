//! What a client sends: the common header and the two request bodies.
pub mod announce;
pub mod headers;
pub mod request_factory;
pub mod scrape;
