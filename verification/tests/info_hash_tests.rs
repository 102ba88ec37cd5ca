use bittorrent::info_hash::{find_info_span, info_hash};
use sha1::{Digest, Sha1};

fn sha1(data: &[u8]) -> Vec<u8> {
    let mut h = Sha1::new();
    h.update(data);
    h.finalize().to_vec()
}

#[test]
fn hashes_info_dictionary_as_written() {
    let torrent = b"d8:announce3:abc4:infod6:lengthi92063e4:name10:sample.txt12:piece lengthi32768e6:pieces0:ee";
    let start = 22;
    assert_eq!(torrent[start], b'd');
    let end = torrent.len() - 1;
    assert_eq!(find_info_span(torrent), Some((start, end)));
    let hash = info_hash(torrent).expect("info dictionary");
    assert_eq!(hash.len(), 20);
    assert_eq!(hash, sha1(&torrent[start..end]));
    assert_ne!(hash, sha1(torrent));
}

#[test]
fn skips_nested_values_before_info() {
    let torrent = b"d4:listli1ei-2e3:xyzd1:aleee5:xinfod1:ai1ee4:infod4:name1:aee";
    let span = find_info_span(torrent).expect("info dictionary");
    assert_eq!(&torrent[span.0..span.1], b"d4:name1:ae");
    assert_eq!(info_hash(torrent), Some(sha1(b"d4:name1:ae")));
}

#[test]
fn first_info_key_wins() {
    let torrent = b"d4:infod1:ai1ee4:infod1:bi2eee";
    assert_eq!(info_hash(torrent), Some(sha1(b"d1:ai1ee")));
}

#[test]
fn refuses_files_without_info_dictionary() {
    assert_eq!(info_hash(b""), None);
    assert_eq!(info_hash(b"i1e"), None);
    assert_eq!(info_hash(b"d1:ai1ee"), None);
    assert_eq!(info_hash(b"d4:infoi1ee"), None);
    assert_eq!(info_hash(b"d4:info3:abce"), None);
    assert_eq!(info_hash(b"d1:a5:xe"), None);
    assert_eq!(info_hash(b"d99999999999999999999999:a4:infodee"), None);
    assert_eq!(info_hash(b"d4:infod1:ai1e"), None);
    assert_eq!(find_info_span(b"d4:infod1:ai1e"), None);
}

#[test]
fn info_span_may_stand_before_the_end_is_checked() {
    assert_eq!(find_info_span(b"d4:infodee"), Some((7, 9)));
    assert_eq!(find_info_span(b"d4:infodexxx"), Some((7, 9)));
}
