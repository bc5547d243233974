//! Core of a BitTorrent tracker: interpreting announce requests,
//! tracking the seeders and leechers of one torrent, encoding compact
//! peer lists, and buffering accounting deltas.

pub mod announce;
pub mod codec;
pub mod interpret;
pub mod net;
pub mod parse;
pub mod peer;
pub mod private;
pub mod table;
pub mod torrent;
