use bittorrent::metainfo::DecodeError;
use bittorrent::tracker::{
    get_serde_bencode_tracker_response, torrent_request_url, PeerAddr, PeerListError,
    TrackerParseError, TrackerResponseSerdeBencode, TrackerValue,
};
use bittorrent::tracker_bencode::TrackerResponse;

fn response(peers: &[u8]) -> Vec<u8> {
    let mut out = b"d8:intervali60e5:peers".to_vec();
    out.extend_from_slice(peers.len().to_string().as_bytes());
    out.push(b':');
    out.extend_from_slice(peers);
    out.push(b'e');
    out
}

const PEERS: [u8; 12] = [127, 0, 0, 1, 0x1a, 0xe1, 10, 1, 2, 3, 0, 80];

/// A response with every field that the `bendy` reader asks for.
fn full_response(peers: &[u8]) -> Vec<u8> {
    let mut out = b"d8:completei3e10:downloadedi5e10:incompletei-1e8:intervali60e12:min intervali30e5:peers".to_vec();
    out.extend_from_slice(peers.len().to_string().as_bytes());
    out.push(b':');
    out.extend_from_slice(peers);
    out.extend_from_slice(b"8:uploadedi7ee");
    out
}

#[test]
fn bendy_response_reads_fields() {
    let r = TrackerResponse::from_bencode(&full_response(&PEERS)).ok().expect("valid");
    assert_eq!(r.interval, Some(60));
    assert_eq!(r.peers, Some(PEERS.to_vec()));
    assert_eq!(r.complete, Some(3));
    assert_eq!(r.incomplete, Some(-1));
    assert_eq!(r.min_interval, Some(30));
    assert_eq!(r._downloaded, Some(5));
    assert_eq!(r._uploaded, Some(7));
    assert_eq!(r.display_string(), Some("127.0.0.1:26225\n10.1.2.3:080\n".to_string()));
}

#[test]
fn bendy_response_status_line() {
    let r = TrackerResponse {
        interval: Some(60),
        peers: None,
        complete: Some(3),
        incomplete: Some(-1),
        min_interval: None,
        _downloaded: None,
        _uploaded: None,
    };
    assert_eq!(
        r.display_string(),
        Some("interval: Some(60), complete: Some(3), incomplete: Some(-1), min_interval: None\n".to_string())
    );
}

#[test]
fn bendy_response_refusals() {
    assert_eq!(
        TrackerResponse::from_bencode(b"d3:fooi1ee").err(),
        Some(DecodeError::UnexpectedField(b"foo".to_vec()))
    );
    assert_eq!(TrackerResponse::from_bencode(b"d8:intervali99999999999ee").err(), Some(DecodeError::InvalidInteger));
    assert_eq!(TrackerResponse::from_bencode(b"d8:interval1:xe").err(), Some(DecodeError::WrongType));
    assert_eq!(TrackerResponse::from_bencode(b"d5:peersli1eee").err(), Some(DecodeError::Malformed));
    assert_eq!(TrackerResponse::from_bencode(b"d5:peersi1ee").err(), Some(DecodeError::WrongType));
    assert_eq!(TrackerResponse::from_bencode(b"i1e").err(), Some(DecodeError::WrongType));
    assert_eq!(TrackerResponse::from_bencode(b"").err(), Some(DecodeError::Malformed));
}

#[test]
fn bendy_response_names_missing_field() {
    assert_eq!(
        TrackerResponse::from_bencode(b"de").err(),
        Some(DecodeError::MissingField("interval".to_string()))
    );
    assert_eq!(
        TrackerResponse::from_bencode(b"d8:intervali60ee").err(),
        Some(DecodeError::MissingField("peers".to_string()))
    );
    let mut no_uploaded = full_response(&PEERS);
    let cut = no_uploaded.len() - b"8:uploadedi7ee".len();
    no_uploaded.truncate(cut);
    no_uploaded.push(b'e');
    assert_eq!(
        TrackerResponse::from_bencode(&no_uploaded).err(),
        Some(DecodeError::MissingField("uploaded".to_string()))
    );
}

#[test]
fn bendy_response_names_unexpected_field() {
    assert_eq!(
        TrackerResponse::from_bencode(b"d8:intervali60e7:warning1:xe").err(),
        Some(DecodeError::UnexpectedField(b"warning".to_vec()))
    );
}

#[test]
fn bendy_response_display_refuses_ragged_peers() {
    let r = TrackerResponse::from_bencode(&full_response(&[1, 2, 3])).ok().expect("valid");
    assert_eq!(r.display_string(), None);
}

#[test]
fn serde_response_reads_fields() {
    let r = get_serde_bencode_tracker_response(response(&PEERS)).ok().expect("valid");
    assert_eq!(r.interval, Some(60));
    assert_eq!(r.peers, Some(PEERS.to_vec()));
    assert_eq!(r.min_interval, None);
    assert_eq!(r.display_string(), Some("127.0.0.1:6881\n10.1.2.3:80\n".to_string()));
    assert_eq!(
        r.peers_as_ip_and_port(),
        Ok(vec![
            PeerAddr { ip: [127, 0, 0, 1], port: 6881 },
            PeerAddr { ip: [10, 1, 2, 3], port: 80 },
        ])
    );
}

#[test]
fn serde_response_is_lenient() {
    let r = get_serde_bencode_tracker_response(
        b"d8:completei4294967356e3:fooi1e8:interval3:abc12:min intervali30e5:peersi7ee".to_vec(),
    )
    .ok()
    .expect("valid");
    assert_eq!(r.complete, Some(60));
    assert_eq!(r.interval, None);
    assert_eq!(r.min_interval, Some(30));
    assert_eq!(r.peers, None);
    assert_eq!(
        r.display_string(),
        Some("interval: None, complete: Some(60), incomplete: None, min_interval: Some(30)\n".to_string())
    );
    assert_eq!(r.peers_as_ip_and_port(), Err(PeerListError::InvalidIpAndPort));
}

#[test]
fn serde_response_refusals() {
    assert_eq!(get_serde_bencode_tracker_response(b"i1e".to_vec()).err(), Some(TrackerParseError::CouldNotParse));
    assert_eq!(get_serde_bencode_tracker_response(b"i42e".to_vec()).err(), Some(TrackerParseError::CouldNotParse));
    assert_eq!(get_serde_bencode_tracker_response(b"d1:a".to_vec()).err(), Some(TrackerParseError::CouldNotParse));
    assert_eq!(get_serde_bencode_tracker_response(Vec::new()).err(), Some(TrackerParseError::CouldNotParse));
    assert_eq!(TrackerParseError::CouldNotParse.to_string(), "Parse Error: Could not parse");
}

#[test]
fn peer_list_of_wrong_length() {
    let r = TrackerResponseSerdeBencode {
        interval: None,
        peers: Some(vec![1, 2, 3, 4, 5]),
        complete: None,
        incomplete: None,
        min_interval: None,
    };
    assert_eq!(r.peers_as_ip_and_port(), Err(PeerListError::InvalidIpAndPort));
    assert_eq!(PeerListError::InvalidIpAndPort.to_string(), "Invalid ip and port");
    assert_eq!(r.display_string(), None);
}

#[test]
fn from_entries_takes_last_entry() {
    let entries = vec![
        (b"interval".to_vec(), TrackerValue::Int(1)),
        (b"interval".to_vec(), TrackerValue::Int(2)),
        (b"peers".to_vec(), TrackerValue::List),
        (b"incomplete".to_vec(), TrackerValue::Int(-3)),
    ];
    let r = TrackerResponseSerdeBencode::from_entries(&entries);
    assert_eq!(r.interval, Some(2));
    assert_eq!(r.peers, None);
    assert_eq!(r.incomplete, Some(-3));
    assert_eq!(TrackerValue::Int(5).as_integer(), Some(5));
    assert_eq!(TrackerValue::Dict.as_integer(), None);
    assert_eq!(TrackerValue::Bytes(vec![1]).as_bytes(), Some(&vec![1]));
}

#[test]
fn builds_request_url() {
    let hash = vec![0xd6, 0x9f, b'a', b'-', b'~', b' ', 0x00];
    assert_eq!(
        torrent_request_url(&hash, "http://tracker.example/announce", 92063),
        "http://tracker.example/announce?peer_id=00112233445566778899&port=6881&uploaded=0&downloaded=0&left=92063&compact=1&info_hash=%D6%9Fa-~%20%00"
    );
    assert_eq!(
        torrent_request_url(&vec![], "u", 4294967296 + 5),
        "u?peer_id=00112233445566778899&port=6881&uploaded=0&downloaded=0&left=5&compact=1&info_hash="
    );
    assert_eq!(
        torrent_request_url(&vec![], "u", -1),
        "u?peer_id=00112233445566778899&port=6881&uploaded=0&downloaded=0&left=-1&compact=1&info_hash="
    );
}
