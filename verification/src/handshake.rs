//! The handshake that opens a connection to a peer.
use vstd::prelude::*;

use crate::protocol_message::extend_bytes;
use crate::text::{hex_text, push_hex_digit};

verus! {

#[verifier::external_type_specification]
#[verifier::external_body]
pub struct ExIoError(std::io::Error);

/// A handshake message.
#[derive(Debug, Clone)]
pub struct TcpHandshake {
    /// The length of the protocol name.
    pub length: u8,
    pub protocol: Vec<u8>,
    pub reserved_bytes: Vec<u8>,
    pub info_hash: Vec<u8>,
    pub peer_id: Vec<u8>,
}

/// Why a handshake failed.
#[derive(Debug)]
pub enum TcpHandshakeError {
    /// Reading from or writing to the peer failed.
    TcpStreamError(std::io::Error),
    /// The handshake message does not have the length of a handshake.
    InvalidLength,
}

impl From<std::io::Error> for TcpHandshakeError {
    fn from(error: std::io::Error) -> (res: Self) {
        TcpHandshakeError::TcpStreamError(error)
    }
}

impl vstd::std_specs::convert::FromSpecImpl<std::io::Error> for TcpHandshakeError {
    open spec fn obeys_from_spec() -> bool {
        true
    }

    open spec fn from_spec(error: std::io::Error) -> Self {
        TcpHandshakeError::TcpStreamError(error)
    }
}

/// The bytes of a handshake: the protocol name's length, the name, the
/// reserved bytes, the info hash and the peer id.
pub open spec fn handshake_bytes(h: TcpHandshake) -> Seq<u8> {
    seq![h.length] + h.protocol@ + h.reserved_bytes@ + h.info_hash@ + h.peer_id@
}

/// The bytes of a handshake, as [`handshake_bytes`] states.
pub fn serialize_handshake(handshake: TcpHandshake) -> (res: Vec<u8>)
    ensures
        res@ == handshake_bytes(handshake),
{
    let mut result = Vec::new();
    result.push(handshake.length);
    extend_bytes(&mut result, handshake.protocol.as_slice());
    extend_bytes(&mut result, handshake.reserved_bytes.as_slice());
    extend_bytes(&mut result, handshake.info_hash.as_slice());
    extend_bytes(&mut result, handshake.peer_id.as_slice());
    assert(result@ =~= handshake_bytes(handshake));
    result
}

/// The name of the protocol, `BitTorrent protocol`.
pub open spec fn protocol_name() -> Seq<u8> {
    seq![66u8, 105, 116, 84, 111, 114, 114, 101, 110, 116, 32, 112, 114, 111, 116, 111, 99, 111, 108]
}

/// The peer id that this client announces, `12312345612315673256`.
pub open spec fn client_peer_id() -> Seq<u8> {
    seq![49u8, 50, 51, 49, 50, 51, 52, 53, 54, 49, 50, 51, 49, 53, 54, 55, 51, 50, 53, 54]
}

/// The length of a handshake message.
pub const HANDSHAKE_LENGTH: usize = 68;

/// The handshake that this client sends for a torrent: the protocol name,
/// eight zero reserved bytes, the info hash and the client's peer id.
pub open spec fn client_handshake(info_hash: Seq<u8>) -> Seq<u8> {
    seq![19u8] + protocol_name() + Seq::new(8, |i: int| 0u8) + info_hash + client_peer_id()
}

/// The handshake to send to a peer for the torrent with `info_hash`, as
/// [`client_handshake`] states; refused unless it is
/// [`HANDSHAKE_LENGTH`] bytes long, that is unless the info hash has 20 bytes.
pub fn peer_handshake(info_hash: &Vec<u8>) -> (res: Result<Vec<u8>, TcpHandshakeError>)
    ensures
        client_handshake(info_hash@).len() == HANDSHAKE_LENGTH <==> info_hash@.len() == 20,
        info_hash@.len() == 20 ==> (res matches Ok(b) && b@ == client_handshake(info_hash@)),
        info_hash@.len() != 20 ==> (res matches Err(TcpHandshakeError::InvalidLength)),
{
    let protocol: Vec<u8> = vec![66u8, 105, 116, 84, 111, 114, 114, 101, 110, 116, 32, 112, 114, 111, 116, 111, 99, 111, 108];
    let peer_id: Vec<u8> = vec![49u8, 50, 51, 49, 50, 51, 52, 53, 54, 49, 50, 51, 49, 53, 54, 55, 51, 50, 53, 54];
    let reserved_bytes: Vec<u8> = vec![0u8, 0, 0, 0, 0, 0, 0, 0];
    let mut hash: Vec<u8> = Vec::new();
    extend_bytes(&mut hash, info_hash.as_slice());
    assert(protocol@ =~= protocol_name());
    assert(peer_id@ =~= client_peer_id());
    assert(reserved_bytes@ =~= Seq::new(8, |i: int| 0u8));
    let handshake = TcpHandshake { length: 19, protocol, reserved_bytes, info_hash: hash, peer_id };
    let bytes = serialize_handshake(handshake);
    assert(bytes@ =~= client_handshake(info_hash@));
    if bytes.len() != HANDSHAKE_LENGTH {
        return Err(TcpHandshakeError::InvalidLength);
    }
    Ok(bytes)
}

/// The bytes written in lowercase hexadecimal, two digits each.
pub fn create_str_from_hex(hex: &Vec<u8>) -> (res: String)
    ensures
        res@ == hex_text(hex@),
{
    let mut result = String::new();
    let mut i: usize = 0;
    while i < hex.len()
        invariant
            i <= hex.len(),
            result@ == hex_text(hex@.take(i as int)),
        decreases hex.len() - i,
    {
        let b = hex[i];
        push_hex_digit(&mut result, b / 16);
        push_hex_digit(&mut result, b % 16);
        assert(hex@.take(i + 1).drop_last() =~= hex@.take(i as int));
        i = i + 1;
    }
    assert(hex@.take(hex.len() as int) =~= hex@);
    result
}

} // verus!
