//! A BitTorrent client library: bencode decoding, torrent metadata,
//! tracker responses, peer handshakes and peer wire messages.

pub mod tokens;
pub mod number;
pub mod bencode;
pub mod bytes;
pub mod metainfo;
pub mod text;
pub mod tracker;
pub mod tracker_bencode;
pub mod protocol_message;
pub mod handshake;
pub mod render;
pub mod info_hash;
