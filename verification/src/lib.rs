//! A passive crawler for the BitTorrent Mainline DHT.
//!
//! The crate holds the protocol logic of the crawler: the node identities it
//! forges, the KRPC messages it understands and answers, the compact node
//! lists it walks, and the metadata exchange that turns an announced
//! info-hash into the torrent's info dictionary. Sockets, threads and files
//! belong to the program that drives it.

pub mod bytes;
pub mod clock;
pub mod decimal;
pub mod dht;
pub mod digest;
pub mod endian;
pub mod hexfmt;
pub mod ident;
pub mod message;
pub mod nodes;
pub mod syntax;
pub mod torrent;
pub mod wire;
pub mod bencoding;
