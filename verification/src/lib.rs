//! A BitTorrent UDP tracker core: the wire codec, the connection tokens, the
//! swarm registry and the per-datagram request handling, all as plain
//! functions over bytes and integers.
pub mod address;
pub mod records;
pub mod server;
pub mod swarm;
pub mod token;
pub mod udp_server;
pub mod wire;
