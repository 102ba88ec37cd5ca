//! A tracker's response read with `bendy`'s tokenizer.
use vstd::prelude::*;
use vstd::string::*;
use vstd::utf8::*;

use crate::bytes::bytes_equal;
use crate::metainfo::{opt_bytes, unexpected_key, DecodeError, DecodeErrorView};
use crate::number::{parse_i32, parsed_i32};
use crate::text::{push_char, push_decimal, decimal};
use crate::tokens::{bendy_token_stream, tokenize, tokens_view, TokenItem, TokenView};
use crate::tracker::{
    dotted_ip, key_complete, key_downloaded, key_incomplete, key_interval, key_min_interval,
    key_peers, key_uploaded, peer_chunk, push_dotted_ip, push_status_line, status_line,
};

verus! {

/// How deep lists and dictionaries may nest in a tracker's response: only
/// the response's own dictionary.
pub const TRACKER_RESPONSE_MAX_DEPTH: usize = 1;

/// A tracker's response.
#[derive(Debug)]
pub struct TrackerResponse {
    pub interval: Option<i32>,
    pub peers: Option<Vec<u8>>,
    pub complete: Option<i32>,
    pub incomplete: Option<i32>,
    pub min_interval: Option<i32>,
    pub _downloaded: Option<i32>,
    pub _uploaded: Option<i32>,
}

/// The model of a [`TrackerResponse`].
pub struct TrackerResponseView {
    pub interval: Option<i32>,
    pub peers: Option<Seq<u8>>,
    pub complete: Option<i32>,
    pub incomplete: Option<i32>,
    pub min_interval: Option<i32>,
    pub downloaded: Option<i32>,
    pub uploaded: Option<i32>,
}

impl View for TrackerResponse {
    type V = TrackerResponseView;

    open spec fn view(&self) -> TrackerResponseView {
        TrackerResponseView {
            interval: self.interval,
            peers: opt_bytes(self.peers),
            complete: self.complete,
            incomplete: self.incomplete,
            min_interval: self.min_interval,
            downloaded: self._downloaded,
            uploaded: self._uploaded,
        }
    }
}

/// An `i32` field: an integer token whose text `str::parse::<i32>` accepts.
pub open spec fn i32_value(t: TokenView) -> Result<i32, DecodeErrorView> {
    match t {
        TokenView::Num(x) => match parsed_i32(encode_utf8(x)) {
            Some(v) => Ok(v),
            None => Err(DecodeErrorView::InvalidInteger),
        },
        _ => Err(DecodeErrorView::WrongType),
    }
}

/// Reads the entries of a response dictionary from position `j`.
pub open spec fn response_entries(toks: Seq<TokenView>, j: int, r: TrackerResponseView) -> Result<TrackerResponseView, DecodeErrorView>
    decreases toks.len() - j,
{
    if 0 <= j < toks.len() {
        match toks[j] {
            TokenView::End => Ok(r),
            TokenView::Bytes(k) => {
                if j + 1 >= toks.len() || toks[j + 1] is Error || toks[j + 1] is End {
                    Err(DecodeErrorView::Malformed)
                } else if k == key_peers() {
                    match toks[j + 1] {
                        TokenView::Bytes(b) => response_entries(toks, j + 2, TrackerResponseView { peers: Some(b), ..r }),
                        _ => Err(DecodeErrorView::WrongType),
                    }
                } else if k == key_interval() || k == key_min_interval() || k == key_complete()
                    || k == key_incomplete() || k == key_downloaded() || k == key_uploaded() {
                    match i32_value(toks[j + 1]) {
                        Ok(v) => response_entries(toks, j + 2,
                            if k == key_interval() {
                                TrackerResponseView { interval: Some(v), ..r }
                            } else if k == key_min_interval() {
                                TrackerResponseView { min_interval: Some(v), ..r }
                            } else if k == key_complete() {
                                TrackerResponseView { complete: Some(v), ..r }
                            } else if k == key_incomplete() {
                                TrackerResponseView { incomplete: Some(v), ..r }
                            } else if k == key_downloaded() {
                                TrackerResponseView { downloaded: Some(v), ..r }
                            } else {
                                TrackerResponseView { uploaded: Some(v), ..r }
                            }),
                        Err(e) => Err(e),
                    }
                } else {
                    Err(DecodeErrorView::UnexpectedField(k))
                }
            },
            _ => Err(DecodeErrorView::Malformed),
        }
    } else {
        Err(DecodeErrorView::Malformed)
    }
}

/// The response with no field present.
pub open spec fn empty_response() -> TrackerResponseView {
    TrackerResponseView {
        interval: None,
        peers: None,
        complete: None,
        incomplete: None,
        min_interval: None,
        downloaded: None,
        uploaded: None,
    }
}

/// The fields read, when every field is present; otherwise the error for
/// the first absent field, in the order of the record's fields.
pub open spec fn complete_response(r: TrackerResponseView) -> Result<TrackerResponseView, DecodeErrorView> {
    if r.interval is None {
        Err(DecodeErrorView::MissingField("interval"@))
    } else if r.peers is None {
        Err(DecodeErrorView::MissingField("peers"@))
    } else if r.complete is None {
        Err(DecodeErrorView::MissingField("complete"@))
    } else if r.incomplete is None {
        Err(DecodeErrorView::MissingField("incomplete"@))
    } else if r.min_interval is None {
        Err(DecodeErrorView::MissingField("min_interval"@))
    } else if r.downloaded is None {
        Err(DecodeErrorView::MissingField("downloaded"@))
    } else if r.uploaded is None {
        Err(DecodeErrorView::MissingField("uploaded"@))
    } else {
        Ok(r)
    }
}

/// The response that a token stream holds: a dictionary whose keys are
/// among `interval`, `min interval`, `complete`, `incomplete`, `downloaded`,
/// `uploaded` (each an `i32`) and `peers` (a byte string). Any other key is
/// an error, and so is a missing field: every field must be present.
pub open spec fn tracker_response_of(toks: Seq<TokenView>) -> Result<TrackerResponseView, DecodeErrorView> {
    if toks.len() == 0 || toks[0] is Error || toks[0] is End {
        Err(DecodeErrorView::Malformed)
    } else if !(toks[0] is Dict) {
        Err(DecodeErrorView::WrongType)
    } else {
        match response_entries(toks, 1, empty_response()) {
            Ok(r) => complete_response(r),
            Err(e) => Err(e),
        }
    }
}

/// Reads an `i32` field, as [`i32_value`] states.
fn read_i32(t: &TokenItem) -> (res: Result<i32, DecodeError>)
    ensures
        match i32_value(t@) {
            Ok(v) => res == Ok::<i32, DecodeError>(v),
            Err(e) => res matches Err(e2) && e2@ == e,
        },
{
    match t {
        TokenItem::Num(x) => match parse_i32(x.as_str().as_bytes()) {
            Some(v) => Ok(v),
            None => Err(DecodeError::InvalidInteger),
        },
        _ => Err(DecodeError::WrongType),
    }
}

/// The line written for one peer: the dotted address, `:`, then the two
/// port bytes each in decimal.
pub open spec fn raw_peer_line(c: Seq<u8>) -> Seq<char> {
    dotted_ip(c) + seq![':'] + decimal(c[4] as nat) + decimal(c[5] as nat) + seq!['\n']
}

/// The lines written for the first `n` peers of a compact peer list.
pub open spec fn raw_peer_lines(peers: Seq<u8>, n: nat) -> Seq<char>
    decreases n,
{
    if n == 0 {
        Seq::empty()
    } else {
        raw_peer_lines(peers, (n - 1) as nat) + raw_peer_line(peer_chunk(peers, n - 1))
    }
}

/// What displaying the response writes: a line per peer for a peer list
/// whose length is a multiple of 6, the status line when there is no peer
/// list; `None` (a formatting error) for a peer list of another length.
pub open spec fn response_text(r: TrackerResponseView) -> Option<Seq<char>> {
    match r.peers {
        Some(p) => if p.len() % 6 != 0 {
            None
        } else {
            Some(raw_peer_lines(p, p.len() / 6))
        },
        None => Some(status_line(r.interval, r.complete, r.incomplete, r.min_interval)),
    }
}

impl TrackerResponse {
    /// The response, when every field is present, as [`complete_response`]
    /// states.
    fn complete(r: TrackerResponse) -> (res: Result<TrackerResponse, DecodeError>)
        ensures
            match complete_response(r@) {
                Ok(v) => res matches Ok(resp) && resp@ == v,
                Err(e) => res matches Err(e2) && e2@ == e,
            },
    {
        if r.interval.is_none() {
            return Err(DecodeError::MissingField(String::from_str("interval")));
        }
        if r.peers.is_none() {
            return Err(DecodeError::MissingField(String::from_str("peers")));
        }
        if r.complete.is_none() {
            return Err(DecodeError::MissingField(String::from_str("complete")));
        }
        if r.incomplete.is_none() {
            return Err(DecodeError::MissingField(String::from_str("incomplete")));
        }
        if r.min_interval.is_none() {
            return Err(DecodeError::MissingField(String::from_str("min_interval")));
        }
        if r._downloaded.is_none() {
            return Err(DecodeError::MissingField(String::from_str("downloaded")));
        }
        if r._uploaded.is_none() {
            return Err(DecodeError::MissingField(String::from_str("uploaded")));
        }
        Ok(r)
    }

    /// Reads a response from its token stream, as [`tracker_response_of`]
    /// states.
    pub fn from_tokens(toks: &Vec<TokenItem>) -> (res: Result<TrackerResponse, DecodeError>)
        ensures
            match tracker_response_of(tokens_view(toks@)) {
                Ok(r) => res matches Ok(resp) && resp@ == r,
                Err(e) => res matches Err(e2) && e2@ == e,
            },
    {
        let ghost tv = tokens_view(toks@);
        let len = toks.len();
        if len == 0 {
            return Err(DecodeError::Malformed);
        }
        assert(tv[0] == toks@[0]@);
        match &toks[0] {
            TokenItem::Dict => {},
            TokenItem::Error => {
                return Err(DecodeError::Malformed);
            },
            TokenItem::End => {
                return Err(DecodeError::Malformed);
            },
            _ => {
                return Err(DecodeError::WrongType);
            },
        }
        let mut r = TrackerResponse {
            interval: None,
            peers: None,
            complete: None,
            incomplete: None,
            min_interval: None,
            _downloaded: None,
            _uploaded: None,
        };
        let k_interval: [u8; 8] = [105u8, 110, 116, 101, 114, 118, 97, 108];
        let k_peers: [u8; 5] = [112u8, 101, 101, 114, 115];
        let k_complete: [u8; 8] = [99u8, 111, 109, 112, 108, 101, 116, 101];
        let k_incomplete: [u8; 10] = [105u8, 110, 99, 111, 109, 112, 108, 101, 116, 101];
        let k_min_interval: [u8; 12] = [109u8, 105, 110, 32, 105, 110, 116, 101, 114, 118, 97, 108];
        let k_downloaded: [u8; 10] = [100u8, 111, 119, 110, 108, 111, 97, 100, 101, 100];
        let k_uploaded: [u8; 8] = [117u8, 112, 108, 111, 97, 100, 101, 100];
        assert(k_interval@ =~= key_interval());
        assert(k_peers@ =~= key_peers());
        assert(k_complete@ =~= key_complete());
        assert(k_incomplete@ =~= key_incomplete());
        assert(k_min_interval@ =~= key_min_interval());
        assert(k_downloaded@ =~= key_downloaded());
        assert(k_uploaded@ =~= key_uploaded());
        let mut j: usize = 1;
        loop
            invariant
                1 <= j <= len,
                len == toks@.len(),
                tv == tokens_view(toks@),
                tv[0] is Dict,
                k_interval@ == key_interval(),
                k_peers@ == key_peers(),
                k_complete@ == key_complete(),
                k_incomplete@ == key_incomplete(),
                k_min_interval@ == key_min_interval(),
                k_downloaded@ == key_downloaded(),
                k_uploaded@ == key_uploaded(),
                response_entries(tv, j as int, r@) == response_entries(tv, 1, empty_response()),
            decreases len - j,
        {
            if j >= len {
                return Err(DecodeError::Malformed);
            }
            assert(tv[j as int] == toks@[j as int]@);
            match &toks[j] {
                TokenItem::End => {
                    return TrackerResponse::complete(r);
                },
                TokenItem::Bytes(k) => {
                    if j + 1 >= len {
                        return Err(DecodeError::Malformed);
                    }
                    assert(tv[j + 1] == toks@[j + 1]@);
                    let v = &toks[j + 1];
                    match v {
                        TokenItem::Error => {
                            return Err(DecodeError::Malformed);
                        },
                        TokenItem::End => {
                            return Err(DecodeError::Malformed);
                        },
                        _ => {},
                    }
                    let key = k.as_slice();
                    if bytes_equal(key, &k_peers) {
                        match v {
                            TokenItem::Bytes(b) => {
                                let c = b.clone();
                                assert(c@ =~= b@);
                                r.peers = Some(c);
                            },
                            _ => {
                                return Err(DecodeError::WrongType);
                            },
                        }
                    } else {
                        let is_interval = bytes_equal(key, &k_interval);
                        let is_min_interval = bytes_equal(key, &k_min_interval);
                        let is_complete = bytes_equal(key, &k_complete);
                        let is_incomplete = bytes_equal(key, &k_incomplete);
                        let is_downloaded = bytes_equal(key, &k_downloaded);
                        let is_uploaded = bytes_equal(key, &k_uploaded);
                        if !(is_interval || is_min_interval || is_complete || is_incomplete
                            || is_downloaded || is_uploaded) {
                            return Err(DecodeError::UnexpectedField(unexpected_key(k)));
                        }
                        let x = match read_i32(v) {
                            Ok(x) => x,
                            Err(e) => {
                                return Err(e);
                            },
                        };
                        if is_interval {
                            r.interval = Some(x);
                        } else if is_min_interval {
                            r.min_interval = Some(x);
                        } else if is_complete {
                            r.complete = Some(x);
                        } else if is_incomplete {
                            r.incomplete = Some(x);
                        } else if is_downloaded {
                            r._downloaded = Some(x);
                        } else {
                            r._uploaded = Some(x);
                        }
                    }
                    j = j + 2;
                },
                _ => {
                    return Err(DecodeError::Malformed);
                },
            }
        }
    }

    /// Decodes a tracker's response: the response that `bendy`'s token
    /// stream for the bytes (nesting limited to
    /// [`TRACKER_RESPONSE_MAX_DEPTH`]) holds, as [`tracker_response_of`]
    /// states.
    pub fn from_bencode(bytes: &[u8]) -> (res: Result<TrackerResponse, DecodeError>)
        ensures
            match tracker_response_of(bendy_token_stream(bytes@, TRACKER_RESPONSE_MAX_DEPTH)) {
                Ok(r) => res matches Ok(resp) && resp@ == r,
                Err(e) => res matches Err(e2) && e2@ == e,
            },
    {
        let toks = tokenize(bytes, TRACKER_RESPONSE_MAX_DEPTH);
        TrackerResponse::from_tokens(&toks)
    }

    /// The text that displaying the response writes, as [`response_text`]
    /// states; `None` where formatting fails.
    pub fn display_string(&self) -> (res: Option<String>)
        ensures
            match response_text(self@) {
                Some(t) => res matches Some(s) && s@ == t,
                None => res is None,
            },
    {
        let mut out = String::new();
        match &self.peers {
            Some(peers) => {
                if peers.len() % 6 != 0 {
                    return None;
                }
                let n = peers.len() / 6;
                let mut k: usize = 0;
                assert(out@ =~= raw_peer_lines(peers@, 0));
                while k < n
                    invariant
                        k <= n,
                        n == peers@.len() / 6,
                        out@ == raw_peer_lines(peers@, k as nat),
                    decreases n - k,
                {
                    assert(6 * k + 6 <= peers.len()) by (nonlinear_arith)
                        requires k < n, n == peers@.len() / 6;
                    let at = 6 * k;
                    push_dotted_ip(&mut out, peers, at);
                    push_char(&mut out, ':');
                    push_decimal(&mut out, peers[at + 4] as u64);
                    push_decimal(&mut out, peers[at + 5] as u64);
                    push_char(&mut out, '\n');
                    assert(out@ =~= raw_peer_lines(peers@, (k + 1) as nat));
                    k = k + 1;
                }
                Some(out)
            },
            None => {
                push_status_line(&mut out, self.interval, self.complete, self.incomplete, self.min_interval);
                assert(out@ =~= status_line(self.interval, self.complete, self.incomplete, self.min_interval));
                Some(out)
            },
        }
    }
}

} // verus!
