use bittorrent::bencode::ParseError;
use bittorrent::metainfo::{decode_torrent, DecodeError, Info, MetaInfo};
use bittorrent::tokens::TokenItem;

fn bstr(out: &mut Vec<u8>, s: &[u8]) {
    out.extend_from_slice(s.len().to_string().as_bytes());
    out.push(b':');
    out.extend_from_slice(s);
}

fn sample_pieces() -> Vec<u8> {
    (0u8..60).collect()
}

fn sample_info(out: &mut Vec<u8>) {
    out.push(b'd');
    bstr(out, b"length");
    out.extend_from_slice(b"i92063e");
    bstr(out, b"name");
    bstr(out, b"sample.txt");
    bstr(out, b"piece length");
    out.extend_from_slice(b"i32768e");
    bstr(out, b"pieces");
    bstr(out, &sample_pieces());
    out.push(b'e');
}

fn sample_torrent(with_created_by: bool) -> Vec<u8> {
    let mut out = vec![b'd'];
    bstr(&mut out, b"announce");
    bstr(&mut out, b"http://tracker.example/announce");
    if with_created_by {
        bstr(&mut out, b"created by");
        bstr(&mut out, b"mktorrent 1.1");
    }
    bstr(&mut out, b"info");
    sample_info(&mut out);
    out.push(b'e');
    out
}

#[test]
fn decodes_sample_torrent() {
    let m = decode_torrent(&sample_torrent(true)).ok().expect("valid torrent");
    assert_eq!(m.announce, "http://tracker.example/announce");
    assert_eq!(m.created_by, Some("mktorrent 1.1".to_string()));
    assert_eq!(m.info.name, "sample.txt");
    assert_eq!(m.info.file_length, "92063");
    assert_eq!(m.info.piece_length, "32768");
    assert_eq!(m.info.pieces, sample_pieces());
}

#[test]
fn created_by_is_optional() {
    let m = decode_torrent(&sample_torrent(false)).ok().expect("valid torrent");
    assert_eq!(m.created_by, None);
    assert_eq!(m.info.name, "sample.txt");
}

#[test]
fn refuses_missing_announce() {
    let mut out = vec![b'd'];
    bstr(&mut out, b"info");
    sample_info(&mut out);
    out.push(b'e');
    assert!(matches!(decode_torrent(&out), Err(ParseError::InvalidFormat)));
}

#[test]
fn refuses_unknown_field() {
    let mut out = vec![b'd'];
    bstr(&mut out, b"announce");
    bstr(&mut out, b"x");
    bstr(&mut out, b"comment");
    bstr(&mut out, b"y");
    bstr(&mut out, b"info");
    sample_info(&mut out);
    out.push(b'e');
    assert!(matches!(decode_torrent(&out), Err(ParseError::InvalidFormat)));
}

#[test]
fn refuses_missing_info_field() {
    let mut out = vec![b'd'];
    bstr(&mut out, b"announce");
    bstr(&mut out, b"x");
    bstr(&mut out, b"info");
    out.push(b'd');
    bstr(&mut out, b"length");
    out.extend_from_slice(b"i1e");
    bstr(&mut out, b"name");
    bstr(&mut out, b"n");
    out.push(b'e');
    out.push(b'e');
    assert!(matches!(decode_torrent(&out), Err(ParseError::InvalidFormat)));
}

#[test]
fn refuses_wrong_kinds_and_malformed_input() {
    assert!(decode_torrent(&b"i1e".to_vec()).is_err());
    assert!(decode_torrent(&b"".to_vec()).is_err());
    assert!(decode_torrent(&b"d8:announcei1e4:infodee".to_vec()).is_err());
    let mut t = sample_torrent(true);
    t.truncate(t.len() - 3);
    assert!(decode_torrent(&t).is_err());
}

#[test]
fn keeps_integer_text_as_written() {
    let mut out = vec![b'd'];
    bstr(&mut out, b"announce");
    bstr(&mut out, b"a");
    bstr(&mut out, b"info");
    out.push(b'd');
    bstr(&mut out, b"length");
    out.extend_from_slice(b"i-5e");
    bstr(&mut out, b"name");
    bstr(&mut out, b"n");
    bstr(&mut out, b"piece length");
    out.extend_from_slice(b"i99999999999999999999999e");
    bstr(&mut out, b"pieces");
    bstr(&mut out, b"");
    out.push(b'e');
    out.push(b'e');
    let m = decode_torrent(&out).ok().expect("valid torrent");
    assert_eq!(m.info.file_length, "-5");
    assert_eq!(m.info.piece_length, "99999999999999999999999");
    assert_eq!(m.info.pieces, Vec::<u8>::new());
}

#[test]
fn reports_decode_errors() {
    let s = |x: &str| TokenItem::Bytes(x.as_bytes().to_vec());
    let n = |x: &str| TokenItem::Num(x.to_string());
    let err = |toks: Vec<TokenItem>| MetaInfo::from_tokens(&toks).err();
    assert_eq!(err(vec![TokenItem::Error]), Some(DecodeError::Malformed));
    assert_eq!(err(vec![n("1")]), Some(DecodeError::WrongType));
    assert_eq!(
        err(vec![TokenItem::Dict, TokenItem::End]),
        Some(DecodeError::MissingField("announce".to_string()))
    );
    assert_eq!(err(vec![TokenItem::Dict, s("announce"), n("1"), TokenItem::End]), Some(DecodeError::WrongType));
    assert_eq!(
        err(vec![TokenItem::Dict, s("announce"), TokenItem::Bytes(vec![0xff]), TokenItem::End]),
        Some(DecodeError::InvalidUtf8)
    );
    assert_eq!(
        err(vec![TokenItem::Dict, s("zzz"), n("1"), TokenItem::End]),
        Some(DecodeError::UnexpectedField(b"zzz".to_vec()))
    );
    assert_eq!(err(vec![TokenItem::Dict, s("announce"), s("a"), TokenItem::Error]), Some(DecodeError::Malformed));
    assert_eq!(
        err(vec![TokenItem::Dict, s("announce"), s("a"), s("info"), TokenItem::Dict, TokenItem::End, TokenItem::End]),
        Some(DecodeError::MissingField("file_length".to_string()))
    );
}

fn info_tokens(with_pieces: bool) -> Vec<TokenItem> {
    let s = |x: &str| TokenItem::Bytes(x.as_bytes().to_vec());
    let n = |x: &str| TokenItem::Num(x.to_string());
    let mut toks = vec![
        TokenItem::Dict,
        s("length"), n("92063"),
        s("name"), s("sample.txt"),
        s("piece length"), n("32768"),
    ];
    if with_pieces {
        toks.push(s("pieces"));
        toks.push(s(""));
    }
    toks.push(TokenItem::End);
    toks
}

#[test]
fn names_missing_pieces() {
    assert_eq!(
        Info::from_tokens_at(&info_tokens(false), 0).err(),
        Some(DecodeError::MissingField("pieces".to_string()))
    );
    let (info, next) = Info::from_tokens_at(&info_tokens(true), 0).ok().expect("valid info");
    assert_eq!(next, 10);
    assert_eq!(info.name, "sample.txt");
    let mut toks = vec![TokenItem::Dict, TokenItem::Bytes(b"announce".to_vec()), TokenItem::Bytes(b"u".to_vec())];
    toks.push(TokenItem::Bytes(b"info".to_vec()));
    toks.extend(info_tokens(false));
    toks.push(TokenItem::End);
    assert_eq!(MetaInfo::from_tokens(&toks).err(), Some(DecodeError::MissingField("pieces".to_string())));
}

#[test]
fn names_missing_announce_and_info() {
    let mut toks = vec![TokenItem::Dict, TokenItem::Bytes(b"info".to_vec())];
    toks.extend(info_tokens(true));
    toks.push(TokenItem::End);
    assert_eq!(MetaInfo::from_tokens(&toks).err(), Some(DecodeError::MissingField("announce".to_string())));
    let toks = vec![
        TokenItem::Dict,
        TokenItem::Bytes(b"announce".to_vec()),
        TokenItem::Bytes(b"u".to_vec()),
        TokenItem::End,
    ];
    assert_eq!(MetaInfo::from_tokens(&toks).err(), Some(DecodeError::MissingField("info".to_string())));
}

#[test]
fn names_unexpected_comment() {
    let toks = vec![
        TokenItem::Dict,
        TokenItem::Bytes(b"announce".to_vec()),
        TokenItem::Bytes(b"u".to_vec()),
        TokenItem::Bytes(b"comment".to_vec()),
        TokenItem::Bytes(b"x".to_vec()),
        TokenItem::End,
    ];
    assert_eq!(MetaInfo::from_tokens(&toks).err(), Some(DecodeError::UnexpectedField(b"comment".to_vec())));
}

#[test]
fn later_entry_replaces_earlier() {
    let s = |x: &str| TokenItem::Bytes(x.as_bytes().to_vec());
    let n = |x: &str| TokenItem::Num(x.to_string());
    let toks = vec![
        TokenItem::Dict,
        s("announce"), s("first"),
        s("announce"), s("second"),
        s("info"), TokenItem::Dict,
        s("length"), n("1"), s("name"), s("n"), s("piece length"), n("2"), s("pieces"), s("p"),
        TokenItem::End,
        TokenItem::End,
    ];
    let m = MetaInfo::from_tokens(&toks).ok().expect("valid");
    assert_eq!(m.announce, "second");
    assert_eq!(m.info.piece_length, "2");
    assert_eq!(m.info.pieces, b"p".to_vec());
}
