//! Torrent metadata (the contents of a `.torrent` file).
use vstd::prelude::*;
use vstd::string::*;
use vstd::utf8::*;

use crate::bencode::ParseError;
use crate::text::string_from_utf8;
use crate::bytes::bytes_equal;
use crate::tokens::{bendy_token_stream, tokenize, tokens_view, TokenItem, TokenView};

verus! {

/// How deep lists and dictionaries may nest in a torrent file: the file's
/// dictionary and the `info` dictionary inside it.
pub const METAINFO_MAX_DEPTH: usize = 2;

/// Why a dictionary could not be read into a record.
#[derive(Debug, PartialEq, Eq)]
pub enum DecodeError {
    /// The token stream failed, or a dictionary key is not a byte string.
    Malformed,
    /// A value is not of the kind that its field takes.
    WrongType,
    /// A text field is not UTF-8.
    InvalidUtf8,
    /// An integer field does not fit its type.
    InvalidInteger,
    /// The dictionary holds this key, which the record does not know.
    UnexpectedField(Vec<u8>),
    /// The record's field with this name is absent.
    MissingField(String),
}

/// The model of a [`DecodeError`].
pub enum DecodeErrorView {
    Malformed,
    WrongType,
    InvalidUtf8,
    InvalidInteger,
    UnexpectedField(Seq<u8>),
    MissingField(Seq<char>),
}

impl View for DecodeError {
    type V = DecodeErrorView;

    open spec fn view(&self) -> DecodeErrorView {
        match self {
            DecodeError::Malformed => DecodeErrorView::Malformed,
            DecodeError::WrongType => DecodeErrorView::WrongType,
            DecodeError::InvalidUtf8 => DecodeErrorView::InvalidUtf8,
            DecodeError::InvalidInteger => DecodeErrorView::InvalidInteger,
            DecodeError::UnexpectedField(k) => DecodeErrorView::UnexpectedField(k@),
            DecodeError::MissingField(n) => DecodeErrorView::MissingField(n@),
        }
    }
}

/// The `info` dictionary of a torrent.
#[derive(Debug)]
pub struct Info {
    pub name: String,
    /// The `piece length` integer, as written in the file.
    pub piece_length: String,
    /// The SHA-1 hashes of the pieces, 20 bytes each, concatenated.
    pub pieces: Vec<u8>,
    /// The `length` integer, as written in the file.
    pub file_length: String,
}

/// A torrent file.
#[derive(Debug)]
pub struct MetaInfo {
    pub announce: String,
    pub info: Info,
    pub created_by: Option<String>,
}

/// The model of an [`Info`].
pub struct InfoView {
    pub name: Seq<char>,
    pub piece_length: Seq<char>,
    pub pieces: Seq<u8>,
    pub file_length: Seq<char>,
}

/// The model of a [`MetaInfo`].
pub struct MetaInfoView {
    pub announce: Seq<char>,
    pub info: InfoView,
    pub created_by: Option<Seq<char>>,
}

impl View for Info {
    type V = InfoView;

    open spec fn view(&self) -> InfoView {
        InfoView {
            name: self.name@,
            piece_length: self.piece_length@,
            pieces: self.pieces@,
            file_length: self.file_length@,
        }
    }
}

impl View for MetaInfo {
    type V = MetaInfoView;

    open spec fn view(&self) -> MetaInfoView {
        MetaInfoView {
            announce: self.announce@,
            info: self.info@,
            created_by: match self.created_by {
                Some(c) => Some(c@),
                None => None,
            },
        }
    }
}

pub open spec fn key_announce() -> Seq<u8> {
    seq![97u8, 110, 110, 111, 117, 110, 99, 101]
}

pub open spec fn key_created_by() -> Seq<u8> {
    seq![99u8, 114, 101, 97, 116, 101, 100, 32, 98, 121]
}

pub open spec fn key_info() -> Seq<u8> {
    seq![105u8, 110, 102, 111]
}

pub open spec fn key_length() -> Seq<u8> {
    seq![108u8, 101, 110, 103, 116, 104]
}

pub open spec fn key_name() -> Seq<u8> {
    seq![110u8, 97, 109, 101]
}

pub open spec fn key_piece_length() -> Seq<u8> {
    seq![112u8, 105, 101, 99, 101, 32, 108, 101, 110, 103, 116, 104]
}

pub open spec fn key_pieces() -> Seq<u8> {
    seq![112u8, 105, 101, 99, 101, 115]
}

/// The fields of an `info` dictionary read so far.
pub struct InfoFields {
    pub file_length: Option<Seq<char>>,
    pub name: Option<Seq<char>>,
    pub piece_length: Option<Seq<char>>,
    pub pieces: Option<Seq<u8>>,
}

/// The text of a string value: the bytes must be UTF-8.
pub open spec fn text_value(t: TokenView) -> Result<Seq<char>, DecodeErrorView> {
    match t {
        TokenView::Bytes(b) => if valid_utf8(b) { Ok(decode_utf8(b)) } else { Err(DecodeErrorView::InvalidUtf8) },
        _ => Err(DecodeErrorView::WrongType),
    }
}

/// A text field is read exactly when its bytes are UTF-8, whatever their
/// length, and it reads back to those bytes; so every text, encoded as
/// UTF-8, reads as itself.
pub proof fn lemma_text_value_reads_any_text(b: Seq<u8>, text: Seq<char>)
    ensures
        text_value(TokenView::Bytes(b)) is Ok <==> valid_utf8(b),
        text_value(TokenView::Bytes(b)) matches Ok(t) ==> encode_utf8(t) == b,
        text_value(TokenView::Bytes(encode_utf8(text))) == Ok::<Seq<char>, DecodeErrorView>(text),
{
    if valid_utf8(b) {
        decode_utf8_encode_utf8(b);
    }
    encode_utf8_valid_utf8(text);
    encode_utf8_decode_utf8(text);
}

/// Reads the entries of an `info` dictionary from position `j`: the fields,
/// and the position after the dictionary's end.
pub open spec fn info_entries(toks: Seq<TokenView>, j: int, f: InfoFields) -> Result<(InfoFields, int), DecodeErrorView>
    decreases toks.len() - j,
{
    if 0 <= j < toks.len() {
        match toks[j] {
            TokenView::End => Ok((f, j + 1)),
            TokenView::Bytes(k) => {
                if j + 1 >= toks.len() || toks[j + 1] is Error || toks[j + 1] is End {
                    Err(DecodeErrorView::Malformed)
                } else if k == key_length() {
                    match toks[j + 1] {
                        TokenView::Num(t) => info_entries(toks, j + 2, InfoFields { file_length: Some(t), ..f }),
                        _ => Err(DecodeErrorView::WrongType),
                    }
                } else if k == key_name() {
                    match text_value(toks[j + 1]) {
                        Ok(t) => info_entries(toks, j + 2, InfoFields { name: Some(t), ..f }),
                        Err(e) => Err(e),
                    }
                } else if k == key_piece_length() {
                    match toks[j + 1] {
                        TokenView::Num(t) => info_entries(toks, j + 2, InfoFields { piece_length: Some(t), ..f }),
                        _ => Err(DecodeErrorView::WrongType),
                    }
                } else if k == key_pieces() {
                    match toks[j + 1] {
                        TokenView::Bytes(b) => info_entries(toks, j + 2, InfoFields { pieces: Some(b), ..f }),
                        _ => Err(DecodeErrorView::WrongType),
                    }
                } else {
                    Err(DecodeErrorView::UnexpectedField(k))
                }
            },
            _ => Err(DecodeErrorView::Malformed),
        }
    } else {
        Err(DecodeErrorView::Malformed)
    }
}

/// Reads the `info` dictionary that starts at position `p`: the record and
/// the position after it. Every field must be present.
pub open spec fn info_at(toks: Seq<TokenView>, p: int) -> Result<(InfoView, int), DecodeErrorView> {
    if 0 <= p < toks.len() && toks[p] is Dict {
        let none = InfoFields { file_length: None, name: None, piece_length: None, pieces: None };
        match info_entries(toks, p + 1, none) {
            Ok((f, m)) => {
                if f.file_length is None {
                    Err(DecodeErrorView::MissingField("file_length"@))
                } else if f.name is None {
                    Err(DecodeErrorView::MissingField("name"@))
                } else if f.piece_length is None {
                    Err(DecodeErrorView::MissingField("piece_length"@))
                } else if f.pieces is None {
                    Err(DecodeErrorView::MissingField("pieces"@))
                } else {
                    Ok((InfoView {
                        name: f.name.unwrap(),
                        piece_length: f.piece_length.unwrap(),
                        pieces: f.pieces.unwrap(),
                        file_length: f.file_length.unwrap(),
                    }, m))
                }
            },
            Err(e) => Err(e),
        }
    } else if 0 <= p < toks.len() && toks[p] is Error {
        Err(DecodeErrorView::Malformed)
    } else {
        Err(DecodeErrorView::WrongType)
    }
}

/// The fields of a torrent dictionary read so far.
pub struct MetaFields {
    pub announce: Option<Seq<char>>,
    pub created_by: Option<Seq<char>>,
    pub info: Option<InfoView>,
}

/// Reads the entries of a torrent dictionary from position `j`.
pub open spec fn meta_entries(toks: Seq<TokenView>, j: int, f: MetaFields) -> Result<MetaFields, DecodeErrorView>
    decreases toks.len() - j,
{
    if 0 <= j < toks.len() {
        match toks[j] {
            TokenView::End => Ok(f),
            TokenView::Bytes(k) => {
                if j + 1 >= toks.len() || toks[j + 1] is Error || toks[j + 1] is End {
                    Err(DecodeErrorView::Malformed)
                } else if k == key_announce() {
                    match text_value(toks[j + 1]) {
                        Ok(t) => meta_entries(toks, j + 2, MetaFields { announce: Some(t), ..f }),
                        Err(e) => Err(e),
                    }
                } else if k == key_created_by() {
                    match text_value(toks[j + 1]) {
                        Ok(t) => meta_entries(toks, j + 2, MetaFields { created_by: Some(t), ..f }),
                        Err(e) => Err(e),
                    }
                } else if k == key_info() {
                    match info_at(toks, j + 1) {
                        Ok((i, m)) => if j < m <= toks.len() {
                            meta_entries(toks, m, MetaFields { info: Some(i), ..f })
                        } else {
                            Err(DecodeErrorView::Malformed)
                        },
                        Err(e) => Err(e),
                    }
                } else {
                    Err(DecodeErrorView::UnexpectedField(k))
                }
            },
            _ => Err(DecodeErrorView::Malformed),
        }
    } else {
        Err(DecodeErrorView::Malformed)
    }
}

/// The torrent that a token stream holds: a dictionary with the text
/// fields `announce` and `created by` and the dictionary `info`; `announce`
/// and `info` must be present, and no other key may occur.
pub open spec fn metainfo_of(toks: Seq<TokenView>) -> Result<MetaInfoView, DecodeErrorView> {
    if toks.len() == 0 || toks[0] is Error || toks[0] is End {
        Err(DecodeErrorView::Malformed)
    } else if !(toks[0] is Dict) {
        Err(DecodeErrorView::WrongType)
    } else {
        match meta_entries(toks, 1, MetaFields { announce: None, created_by: None, info: None }) {
            Ok(f) => {
                if f.announce is None {
                    Err(DecodeErrorView::MissingField("announce"@))
                } else if f.info is None {
                    Err(DecodeErrorView::MissingField("info"@))
                } else {
                    Ok(MetaInfoView {
                        announce: f.announce.unwrap(),
                        info: f.info.unwrap(),
                        created_by: f.created_by,
                    })
                }
            },
            Err(e) => Err(e),
        }
    }
}



/// The entries of a dictionary from position `j` on hold `key` with a value
/// token `v`: some key token at `q >= j` is `key` and the token after it is
/// `v`.
pub open spec fn entry_after(toks: Seq<TokenView>, j: int, key: Seq<u8>, v: TokenView) -> bool {
    exists|q: int| j <= q && q + 1 < toks.len() && toks[q] == TokenView::Bytes(key) && #[trigger] toks[q + 1] == v
}

proof fn lemma_info_entries_present(toks: Seq<TokenView>, j: int, f: InfoFields)
    requires
        info_entries(toks, j, f) is Ok,
    ensures
        ({
            let g = info_entries(toks, j, f)->Ok_0.0;
            &&& g.file_length matches Some(t) ==> (f.file_length == Some(t) || entry_after(toks, j, key_length(), TokenView::Num(t)))
            &&& g.name matches Some(t) ==> (f.name == Some(t) || exists|q: int| j <= q && q + 1 < toks.len()
                && toks[q] == TokenView::Bytes(key_name()) && #[trigger] text_value(toks[q + 1]) == Ok::<Seq<char>, DecodeErrorView>(t))
            &&& g.piece_length matches Some(t) ==> (f.piece_length == Some(t) || entry_after(toks, j, key_piece_length(), TokenView::Num(t)))
            &&& g.pieces matches Some(b) ==> (f.pieces == Some(b) || entry_after(toks, j, key_pieces(), TokenView::Bytes(b)))
        }),
    decreases toks.len() - j,
{
    if 0 <= j < toks.len() {
        if let TokenView::Bytes(k) = toks[j] {
            if !(j + 1 >= toks.len() || toks[j + 1] is Error || toks[j + 1] is End) {
                if k == key_length() {
                    if let TokenView::Num(t) = toks[j + 1] {
                        lemma_info_entries_present(toks, j + 2, InfoFields { file_length: Some(t), ..f });
                    }
                } else if k == key_name() {
                    if let Ok(t) = text_value(toks[j + 1]) {
                        lemma_info_entries_present(toks, j + 2, InfoFields { name: Some(t), ..f });
                    }
                } else if k == key_piece_length() {
                    if let TokenView::Num(t) = toks[j + 1] {
                        lemma_info_entries_present(toks, j + 2, InfoFields { piece_length: Some(t), ..f });
                    }
                } else if k == key_pieces() {
                    if let TokenView::Bytes(b) = toks[j + 1] {
                        lemma_info_entries_present(toks, j + 2, InfoFields { pieces: Some(b), ..f });
                    }
                }
            }
        }
    }
}

/// An `info` dictionary is read only when it has all four of its fields:
/// each field of the record comes from an entry of the dictionary with that
/// field's key.
pub proof fn lemma_info_fields_present(toks: Seq<TokenView>, p: int)
    requires
        info_at(toks, p) is Ok,
    ensures
        ({
            let i = info_at(toks, p)->Ok_0.0;
            &&& entry_after(toks, p + 1, key_length(), TokenView::Num(i.file_length))
            &&& exists|q: int| p + 1 <= q && q + 1 < toks.len() && toks[q] == TokenView::Bytes(key_name())
                && #[trigger] text_value(toks[q + 1]) == Ok::<Seq<char>, DecodeErrorView>(i.name)
            &&& entry_after(toks, p + 1, key_piece_length(), TokenView::Num(i.piece_length))
            &&& entry_after(toks, p + 1, key_pieces(), TokenView::Bytes(i.pieces))
        }),
{
    let none = InfoFields { file_length: None, name: None, piece_length: None, pieces: None };
    lemma_info_entries_present(toks, p + 1, none);
}

proof fn lemma_meta_entries_present(toks: Seq<TokenView>, j: int, f: MetaFields)
    requires
        meta_entries(toks, j, f) is Ok,
    ensures
        ({
            let g = meta_entries(toks, j, f)->Ok_0;
            &&& g.announce matches Some(a) ==> (f.announce == Some(a) || exists|q: int| j <= q && q + 1 < toks.len()
                && toks[q] == TokenView::Bytes(key_announce()) && #[trigger] text_value(toks[q + 1]) == Ok::<Seq<char>, DecodeErrorView>(a))
            &&& g.info matches Some(i) ==> (f.info == Some(i) || exists|q: int| j <= q && toks[q] == TokenView::Bytes(key_info())
                && (#[trigger] info_at(toks, q + 1)) is Ok && info_at(toks, q + 1)->Ok_0.0 == i)
        }),
    decreases toks.len() - j,
{
    if 0 <= j < toks.len() {
        if let TokenView::Bytes(k) = toks[j] {
            if !(j + 1 >= toks.len() || toks[j + 1] is Error || toks[j + 1] is End) {
                if k == key_announce() {
                    if let Ok(t) = text_value(toks[j + 1]) {
                        lemma_meta_entries_present(toks, j + 2, MetaFields { announce: Some(t), ..f });
                    }
                } else if k == key_created_by() {
                    if let Ok(t) = text_value(toks[j + 1]) {
                        lemma_meta_entries_present(toks, j + 2, MetaFields { created_by: Some(t), ..f });
                    }
                } else if k == key_info() {
                    if let Ok((i, m)) = info_at(toks, j + 1) {
                        if j < m <= toks.len() {
                            lemma_meta_entries_present(toks, m, MetaFields { info: Some(i), ..f });
                        }
                    }
                }
            }
        }
    }
}

/// A torrent is read only when its dictionary has the fields it needs: the
/// tracker URL comes from an `announce` entry and the `info` record from an
/// `info` entry (and, by [`lemma_info_fields_present`], that dictionary has
/// all of its fields).
pub proof fn lemma_metainfo_fields_present(toks: Seq<TokenView>)
    requires
        metainfo_of(toks) is Ok,
    ensures
        ({
            let m = metainfo_of(toks)->Ok_0;
            &&& exists|q: int| 1 <= q && q + 1 < toks.len() && toks[q] == TokenView::Bytes(key_announce())
                && #[trigger] text_value(toks[q + 1]) == Ok::<Seq<char>, DecodeErrorView>(m.announce)
            &&& exists|q: int| 1 <= q && toks[q] == TokenView::Bytes(key_info())
                && (#[trigger] info_at(toks, q + 1)) is Ok && info_at(toks, q + 1)->Ok_0.0 == m.info
        }),
{
    lemma_meta_entries_present(toks, 1, MetaFields { announce: None, created_by: None, info: None });
}

/// The model of an optional string.
pub open spec fn opt_text(o: Option<String>) -> Option<Seq<char>> {
    match o {
        Some(s) => Some(s@),
        None => None,
    }
}

/// The model of optional bytes.
pub open spec fn opt_bytes(o: Option<Vec<u8>>) -> Option<Seq<u8>> {
    match o {
        Some(b) => Some(b@),
        None => None,
    }
}

/// Reads a text value, as [`text_value`] states.
pub(crate) fn read_text(t: &TokenItem) -> (res: Result<String, DecodeError>)
    ensures
        match text_value(t@) {
            Ok(v) => res matches Ok(s) && s@ == v,
            Err(e) => res matches Err(e2) && e2@ == e,
        },
{
    match t {
        TokenItem::Bytes(b) => {
            let c = b.clone();
            assert(c@ =~= b@);
            match string_from_utf8(c) {
                Some(s) => Ok(s),
                None => Err(DecodeError::InvalidUtf8),
            }
        },
        _ => Err(DecodeError::WrongType),
    }
}

/// A copy of a dictionary key, for the error that names it.
pub(crate) fn unexpected_key(k: &Vec<u8>) -> (res: Vec<u8>)
    ensures
        res@ == k@,
{
    let c = k.clone();
    assert(c@ =~= k@);
    c
}

impl Info {
    /// Reads the `info` dictionary at position `p` of a token stream, as
    /// [`info_at`] states.
    pub fn from_tokens_at(toks: &Vec<TokenItem>, p: usize) -> (res: Result<(Info, usize), DecodeError>)
        ensures
            match info_at(tokens_view(toks@), p as int) {
                Ok((i, m)) => res matches Ok((info, n)) && info@ == i && n == m,
                Err(e) => res matches Err(e2) && e2@ == e,
            },
    {
        let ghost tv = tokens_view(toks@);
        let len = toks.len();
        if p >= len {
            return Err(DecodeError::WrongType);
        }
        assert(tv[p as int] == toks@[p as int]@);
        match &toks[p] {
            TokenItem::Dict => {},
            TokenItem::Error => {
                return Err(DecodeError::Malformed);
            },
            _ => {
                return Err(DecodeError::WrongType);
            },
        }
        let mut file_length: Option<String> = None;
        let mut name: Option<String> = None;
        let mut piece_length: Option<String> = None;
        let mut pieces: Option<Vec<u8>> = None;
        let mut j: usize = p + 1;
        let ghost none = InfoFields { file_length: None, name: None, piece_length: None, pieces: None };
        loop
            invariant
                p < j <= len,
                len == toks@.len(),
                tv == tokens_view(toks@),
                tv[p as int] is Dict,
                none == (InfoFields { file_length: None, name: None, piece_length: None, pieces: None }),
                info_entries(tv, j as int, InfoFields {
                    file_length: opt_text(file_length),
                    name: opt_text(name),
                    piece_length: opt_text(piece_length),
                    pieces: opt_bytes(pieces),
                }) == info_entries(tv, p + 1, none),
            decreases len - j,
        {
            if j >= len {
                return Err(DecodeError::Malformed);
            }
            assert(tv[j as int] == toks@[j as int]@);
            match &toks[j] {
                TokenItem::End => {
                    let file_length = match file_length {
                        Some(x) => x,
                        None => {
                            return Err(DecodeError::MissingField(String::from_str("file_length")));
                        },
                    };
                    let name = match name {
                        Some(x) => x,
                        None => {
                            return Err(DecodeError::MissingField(String::from_str("name")));
                        },
                    };
                    let piece_length = match piece_length {
                        Some(x) => x,
                        None => {
                            return Err(DecodeError::MissingField(String::from_str("piece_length")));
                        },
                    };
                    let pieces = match pieces {
                        Some(x) => x,
                        None => {
                            return Err(DecodeError::MissingField(String::from_str("pieces")));
                        },
                    };
                    return Ok((Info { name, piece_length, pieces, file_length }, j + 1));
                },
                TokenItem::Bytes(k) => {
                    if j + 1 >= len {
                        return Err(DecodeError::Malformed);
                    }
                    assert(tv[j + 1] == toks@[j + 1]@);
                    let v = &toks[j + 1];
                    match v {
                        TokenItem::Error => {
                            return Err(DecodeError::Malformed);
                        },
                        TokenItem::End => {
                            return Err(DecodeError::Malformed);
                        },
                        _ => {},
                    }
                    let k_length: [u8; 6] = [108u8, 101, 110, 103, 116, 104];
                    let k_name: [u8; 4] = [110u8, 97, 109, 101];
                    let k_piece_length: [u8; 12] = [112u8, 105, 101, 99, 101, 32, 108, 101, 110, 103, 116, 104];
                    let k_pieces: [u8; 6] = [112u8, 105, 101, 99, 101, 115];
                    assert(k_length@ =~= key_length());
                    assert(k_name@ =~= key_name());
                    assert(k_piece_length@ =~= key_piece_length());
                    assert(k_pieces@ =~= key_pieces());
                    if bytes_equal(k.as_slice(), &k_length) {
                        match v {
                            TokenItem::Num(t) => {
                                file_length = Some(t.clone());
                            },
                            _ => {
                                return Err(DecodeError::WrongType);
                            },
                        }
                    } else if bytes_equal(k.as_slice(), &k_name) {
                        match read_text(v) {
                            Ok(t) => {
                                name = Some(t);
                            },
                            Err(e) => {
                                return Err(e);
                            },
                        }
                    } else if bytes_equal(k.as_slice(), &k_piece_length) {
                        match v {
                            TokenItem::Num(t) => {
                                piece_length = Some(t.clone());
                            },
                            _ => {
                                return Err(DecodeError::WrongType);
                            },
                        }
                    } else if bytes_equal(k.as_slice(), &k_pieces) {
                        match v {
                            TokenItem::Bytes(b) => {
                                let c = b.clone();
                                assert(c@ =~= b@);
                                pieces = Some(c);
                            },
                            _ => {
                                return Err(DecodeError::WrongType);
                            },
                        }
                    } else {
                        return Err(DecodeError::UnexpectedField(unexpected_key(k)));
                    }
                    j = j + 2;
                },
                _ => {
                    return Err(DecodeError::Malformed);
                },
            }
        }
    }
}


/// The model of an optional `info` record.
pub open spec fn opt_info(o: Option<Info>) -> Option<InfoView> {
    match o {
        Some(i) => Some(i@),
        None => None,
    }
}

impl MetaInfo {
    /// Reads a torrent from its token stream, as [`metainfo_of`] states.
    pub fn from_tokens(toks: &Vec<TokenItem>) -> (res: Result<MetaInfo, DecodeError>)
        ensures
            match metainfo_of(tokens_view(toks@)) {
                Ok(m) => res matches Ok(meta) && meta@ == m,
                Err(e) => res matches Err(e2) && e2@ == e,
            },
    {
        let ghost tv = tokens_view(toks@);
        let len = toks.len();
        if len == 0 {
            return Err(DecodeError::Malformed);
        }
        assert(tv[0] == toks@[0]@);
        match &toks[0] {
            TokenItem::Dict => {},
            TokenItem::Error => {
                return Err(DecodeError::Malformed);
            },
            TokenItem::End => {
                return Err(DecodeError::Malformed);
            },
            _ => {
                return Err(DecodeError::WrongType);
            },
        }
        let mut announce: Option<String> = None;
        let mut created_by: Option<String> = None;
        let mut info: Option<Info> = None;
        let mut j: usize = 1;
        loop
            invariant
                1 <= j <= len,
                len == toks@.len(),
                tv == tokens_view(toks@),
                tv[0] is Dict,
                meta_entries(tv, j as int, MetaFields {
                    announce: opt_text(announce),
                    created_by: opt_text(created_by),
                    info: opt_info(info),
                }) == meta_entries(tv, 1, MetaFields { announce: None, created_by: None, info: None }),
            decreases len - j,
        {
            if j >= len {
                return Err(DecodeError::Malformed);
            }
            assert(tv[j as int] == toks@[j as int]@);
            match &toks[j] {
                TokenItem::End => {
                    let announce = match announce {
                        Some(x) => x,
                        None => {
                            return Err(DecodeError::MissingField(String::from_str("announce")));
                        },
                    };
                    let info = match info {
                        Some(x) => x,
                        None => {
                            return Err(DecodeError::MissingField(String::from_str("info")));
                        },
                    };
                    return Ok(MetaInfo { announce, info, created_by });
                },
                TokenItem::Bytes(k) => {
                    if j + 1 >= len {
                        return Err(DecodeError::Malformed);
                    }
                    assert(tv[j + 1] == toks@[j + 1]@);
                    let v = &toks[j + 1];
                    match v {
                        TokenItem::Error => {
                            return Err(DecodeError::Malformed);
                        },
                        TokenItem::End => {
                            return Err(DecodeError::Malformed);
                        },
                        _ => {},
                    }
                    let k_announce: [u8; 8] = [97u8, 110, 110, 111, 117, 110, 99, 101];
                    let k_created_by: [u8; 10] = [99u8, 114, 101, 97, 116, 101, 100, 32, 98, 121];
                    let k_info: [u8; 4] = [105u8, 110, 102, 111];
                    assert(k_announce@ =~= key_announce());
                    assert(k_created_by@ =~= key_created_by());
                    assert(k_info@ =~= key_info());
                    if bytes_equal(k.as_slice(), &k_announce) {
                        match read_text(v) {
                            Ok(t) => {
                                announce = Some(t);
                            },
                            Err(e) => {
                                return Err(e);
                            },
                        }
                        j = j + 2;
                    } else if bytes_equal(k.as_slice(), &k_created_by) {
                        match read_text(v) {
                            Ok(t) => {
                                created_by = Some(t);
                            },
                            Err(e) => {
                                return Err(e);
                            },
                        }
                        j = j + 2;
                    } else if bytes_equal(k.as_slice(), &k_info) {
                        match Info::from_tokens_at(toks, j + 1) {
                            Ok((i, m)) => {
                                if j < m && m <= len {
                                    info = Some(i);
                                    j = m;
                                } else {
                                    return Err(DecodeError::Malformed);
                                }
                            },
                            Err(e) => {
                                return Err(e);
                            },
                        }
                    } else {
                        return Err(DecodeError::UnexpectedField(unexpected_key(k)));
                    }
                },
                _ => {
                    return Err(DecodeError::Malformed);
                },
            }
        }
    }
}

/// Decodes a torrent file: the torrent that `bendy`'s token stream for its
/// bytes (nesting limited to [`METAINFO_MAX_DEPTH`]) holds, as
/// [`metainfo_of`] states; every refusal is [`ParseError::InvalidFormat`].
pub fn decode_torrent(encoded_value: &Vec<u8>) -> (res: Result<MetaInfo, ParseError>)
    ensures
        match metainfo_of(bendy_token_stream(encoded_value@, METAINFO_MAX_DEPTH)) {
            Ok(m) => res matches Ok(meta) && meta@ == m,
            Err(_) => res == Err::<MetaInfo, ParseError>(ParseError::InvalidFormat),
        },
{
    let toks = tokenize(encoded_value.as_slice(), METAINFO_MAX_DEPTH);
    match MetaInfo::from_tokens(&toks) {
        Ok(m) => Ok(m),
        Err(_) => Err(ParseError::InvalidFormat),
    }
}

} // verus!
