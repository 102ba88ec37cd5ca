use bittorrent::protocol_message::{
    piece_digest_matches, piece_hash_matches, DownloadAction, DownloadError, DownloadStage,
    MessageError, PieceDownload, ProtocolMessage, ProtocolMessageType, BLOCK_LENGTH,
};
use sha1::{Digest, Sha1};

fn sha1(data: &[u8]) -> Vec<u8> {
    let mut h = Sha1::new();
    h.update(data);
    h.finalize().to_vec()
}

#[test]
fn message_type_codes() {
    assert_eq!(ProtocolMessageType::Unchoke.as_u8(), 1);
    assert_eq!(ProtocolMessageType::Interested.as_u8(), 2);
    assert_eq!(ProtocolMessageType::Request.as_u8(), 6);
    assert_eq!(ProtocolMessageType::Bitfield.as_u8(), 7);
    assert_eq!(ProtocolMessageType::Piece.as_u8(), 8);
    assert_eq!(ProtocolMessageType::_Port.as_u8(), 9);
    assert_eq!(ProtocolMessageType::from_u8(5), Ok(ProtocolMessageType::Bitfield));
    assert_eq!(ProtocolMessageType::from_u8(7), Ok(ProtocolMessageType::Piece));
    assert_eq!(ProtocolMessageType::from_u8(6), Ok(ProtocolMessageType::Request));
    assert_eq!(ProtocolMessageType::from_u8(0), Err(MessageError::InvalidMessageType));
    assert_eq!(ProtocolMessageType::from_u8(8), Err(MessageError::InvalidMessageType));
}

#[test]
fn message_type_roundtrip() {
    for t in [ProtocolMessageType::Unchoke, ProtocolMessageType::Interested, ProtocolMessageType::Request] {
        assert_eq!(ProtocolMessageType::from_u8(t.as_u8()), Ok(t));
    }
}

#[test]
fn serializes_message() {
    let m = ProtocolMessage { length: 6, message_type: ProtocolMessageType::Interested, payload: vec![0] };
    assert_eq!(m.serialize(), vec![0, 0, 0, 6, 2, 0]);
    let m = ProtocolMessage { length: 0x01020304, message_type: ProtocolMessageType::Request, payload: vec![9, 8] };
    assert_eq!(m.serialize(), vec![1, 2, 3, 4, 6, 9, 8]);
}

#[test]
fn deserializes_message() {
    let m = ProtocolMessage::deserialize(&vec![7, 1, 2, 3]).ok().expect("piece message");
    assert_eq!(m.length, 8);
    assert_eq!(m.message_type, ProtocolMessageType::Piece);
    assert_eq!(m.payload, vec![1, 2, 3]);
    assert_eq!(ProtocolMessage::deserialize(&vec![3, 1]).err(), Some(MessageError::InvalidMessageType));
}

#[test]
fn serialize_deserialize_roundtrip() {
    let m = ProtocolMessage { length: 8, message_type: ProtocolMessageType::Request, payload: vec![4, 5, 6] };
    let bytes = m.serialize();
    let back = ProtocolMessage::deserialize(&bytes[4..].to_vec()).ok().expect("request");
    assert_eq!(back.length, m.length);
    assert_eq!(back.message_type, m.message_type);
    assert_eq!(back.payload, m.payload);
}

fn request(index: u32, begin: u32, length: u32) -> Vec<u8> {
    let mut out = vec![0, 0, 0, 17, 6];
    out.extend_from_slice(&index.to_be_bytes());
    out.extend_from_slice(&begin.to_be_bytes());
    out.extend_from_slice(&length.to_be_bytes());
    out
}

fn send(a: DownloadAction) -> Vec<u8> {
    match a {
        DownloadAction::Send(b) => b,
        other => panic!("expected a message to send, got {:?}", other),
    }
}

#[test]
fn downloads_a_piece() {
    let data = b"the data of the piece".to_vec();
    let mut hashes = vec![0u8; 20];
    hashes.extend_from_slice(&sha1(&data));
    let mut d = PieceDownload::new(1, 20000, hashes);
    assert_eq!(send(d.step(&vec![5, 0xff])), vec![0, 0, 0, 6, 2, 0]);
    assert_eq!(d.stage, DownloadStage::AwaitUnchoke);
    assert_eq!(send(d.step(&vec![1])), request(1, 0, BLOCK_LENGTH));
    assert_eq!(send(d.step(&vec![0; 1024])), request(1, 16384, BLOCK_LENGTH));
    let mut piece = vec![7];
    piece.extend_from_slice(&data);
    match d.step(&piece) {
        DownloadAction::Complete(bytes) => assert_eq!(bytes, data),
        other => panic!("expected completion, got {:?}", other),
    }
    assert_eq!(d.stage, DownloadStage::Finished);
}

#[test]
fn download_detects_hash_mismatch() {
    let mut d = PieceDownload::new(0, 100, vec![0u8; 20]);
    send(d.step(&vec![5]));
    assert_eq!(send(d.step(&vec![1])), request(0, 0, BLOCK_LENGTH));
    match d.step(&vec![]) {
        DownloadAction::Fail(e) => {
            assert_eq!(e, DownloadError::HashMismatch);
            assert_eq!(e.to_string(), "Hashes are not equal");
        }
        other => panic!("expected failure, got {:?}", other),
    }
}

#[test]
fn download_stops_on_empty_block() {
    let empty_hash = sha1(&[]);
    let mut d = PieceDownload::new(0, 40000, empty_hash);
    send(d.step(&vec![5]));
    send(d.step(&vec![2]));
    assert_eq!(send(d.step(&vec![1, 2, 3])), request(0, 16384, BLOCK_LENGTH));
    match d.step(&vec![]) {
        DownloadAction::Complete(bytes) => assert!(bytes.is_empty()),
        other => panic!("expected completion, got {:?}", other),
    }
}

#[test]
fn download_fails_on_unknown_message() {
    let mut d = PieceDownload::new(0, 100, vec![]);
    match d.step(&vec![9]) {
        DownloadAction::Fail(e) => {
            assert_eq!(e, DownloadError::InvalidMessage);
            assert_eq!(e.to_string(), "Invalid message type");
        }
        other => panic!("expected failure, got {:?}", other),
    }
    assert_eq!(d.stage, DownloadStage::Finished);
}

#[test]
fn checks_piece_hashes() {
    let data = b"abc".to_vec();
    let digest = sha1(&data);
    let mut hashes = digest.clone();
    assert!(piece_hash_matches(&hashes, 0, &data));
    assert!(!piece_hash_matches(&hashes, 1, &data));
    assert!(!piece_hash_matches(&hashes, 0, &b"abd".to_vec()));
    hashes.extend_from_slice(&digest[..5]);
    assert!(piece_digest_matches(&hashes, 1, &digest));
    assert!(!piece_digest_matches(&hashes, 2, &digest));
    assert!(piece_digest_matches(&hashes, 0, &digest));
}

#[test]
fn message_errors_have_text() {
    let e = ProtocolMessageType::from_u8(4).err().expect("id 4 is refused");
    assert_eq!(e.to_string(), "Invalid message type");
    let e = ProtocolMessage::deserialize(&vec![3, 1]).err().expect("id 3 is refused");
    assert_eq!(e.to_string(), "Invalid message type");
}
