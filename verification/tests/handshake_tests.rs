use bittorrent::handshake::{create_str_from_hex, peer_handshake, serialize_handshake, TcpHandshake, TcpHandshakeError};

#[test]
fn builds_handshake() {
    let hash: Vec<u8> = (1u8..=20).collect();
    let bytes = peer_handshake(&hash).ok().expect("20-byte hash");
    assert_eq!(bytes.len(), 68);
    assert_eq!(bytes[0], 19);
    assert_eq!(&bytes[1..20], b"BitTorrent protocol");
    assert_eq!(&bytes[20..28], &[0u8; 8]);
    assert_eq!(&bytes[28..48], &hash[..]);
    assert_eq!(&bytes[48..], b"12312345612315673256");
}

#[test]
fn refuses_hash_of_wrong_length() {
    assert!(matches!(peer_handshake(&vec![1; 19]), Err(TcpHandshakeError::InvalidLength)));
    assert!(matches!(peer_handshake(&vec![]), Err(TcpHandshakeError::InvalidLength)));
}

#[test]
fn serializes_handshake_fields_in_order() {
    let h = TcpHandshake {
        length: 3,
        protocol: b"abc".to_vec(),
        reserved_bytes: vec![0, 1],
        info_hash: vec![2],
        peer_id: vec![3, 4],
    };
    assert_eq!(serialize_handshake(h), vec![3, b'a', b'b', b'c', 0, 1, 2, 3, 4]);
}

#[test]
fn writes_hex() {
    assert_eq!(create_str_from_hex(&vec![0x0a, 0xff, 0x00, 0x9b]), "0aff009b");
    assert_eq!(create_str_from_hex(&vec![]), "");
}

#[test]
fn converts_io_error() {
    let e: TcpHandshakeError = std::io::Error::new(std::io::ErrorKind::Other, "x").into();
    assert!(matches!(e, TcpHandshakeError::TcpStreamError(_)));
}

#[test]
fn hex_text_reads_back() {
    let bytes: Vec<u8> = vec![0x00, 0x01, 0x7f, 0x80, 0xab, 0xff];
    let text = create_str_from_hex(&bytes);
    assert_eq!(text.len(), 2 * bytes.len());
    let back: Vec<u8> = (0..bytes.len())
        .map(|i| u8::from_str_radix(&text[2 * i..2 * i + 2], 16).unwrap())
        .collect();
    assert_eq!(back, bytes);
    assert_ne!(create_str_from_hex(&vec![0x12]), create_str_from_hex(&vec![0x21]));
}
