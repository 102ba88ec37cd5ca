//! Talking to a tracker: the request URL and the tracker's response.
use vstd::prelude::*;
use vstd::string::*;

use serde_bencode::value::Value;

use crate::bytes::bytes_equal;
use crate::text::{push_char, push_decimal, push_i64, decimal, signed_decimal};

verus! {

/// A byte that URL encoding keeps as it is: an ASCII letter or digit, or one
/// of `-`, `.`, `_`, `~`.
pub open spec fn is_unreserved(b: u8) -> bool {
    (48 <= b <= 57) || (65 <= b <= 90) || (97 <= b <= 122) || b == 45 || b == 46 || b == 95 || b == 126
}

/// The uppercase hexadecimal digit for `d < 16`.
pub open spec fn upper_hex_digit(d: int) -> char {
    if d < 10 {
        (48 + d) as char
    } else {
        (55 + d) as char
    }
}

/// The percent-encoding of `data`: each unreserved byte stays, every other
/// byte becomes `%` and its two uppercase hexadecimal digits.
pub open spec fn percent_encoded(data: Seq<u8>) -> Seq<char>
    decreases data.len(),
{
    if data.len() == 0 {
        Seq::empty()
    } else {
        let b = data.last();
        percent_encoded(data.drop_last()) + if is_unreserved(b) {
            seq![b as char]
        } else {
            seq!['%', upper_hex_digit((b / 16) as int), upper_hex_digit((b % 16) as int)]
        }
    }
}

/// `urlencoding::encode_binary`, which percent-encodes every byte but ASCII
/// letters, digits and `-`, `_`, `.`, `~`; the contract states that rule.
#[verifier::external_body]
fn encode_binary(data: &[u8]) -> (res: String)
    ensures
        res@ == percent_encoded(data@),
{
    urlencoding::encode_binary(data).into_owned()
}

/// The query that announces this client to a tracker, up to the value of
/// `left`.
pub open spec fn query_head() -> Seq<char> {
    "?peer_id=00112233445566778899&port=6881&uploaded=0&downloaded=0&left="@
}

/// The query text between the value of `left` and the info hash.
pub open spec fn query_tail() -> Seq<char> {
    "&compact=1&info_hash="@
}

/// The URL that asks the tracker at `tracker_url` for peers of the torrent
/// with `info_hash`, with `left` bytes still to download (written as the
/// `i32` that `left` truncates to).
pub open spec fn tracker_request_url(info_hash: Seq<u8>, tracker_url: Seq<char>, left: i64) -> Seq<char> {
    tracker_url + query_head() + signed_decimal((left as i32) as int) + query_tail() + percent_encoded(info_hash)
}

/// Builds the request URL, as [`tracker_request_url`] states.
pub fn torrent_request_url(info_hash: &Vec<u8>, tracker_url: &str, left: i64) -> (res: String)
    ensures
        res@ == tracker_request_url(info_hash@, tracker_url@, left),
{
    let info_encoded = encode_binary(info_hash.as_slice());
    let mut url = String::from_str(tracker_url);
    url.append("?peer_id=00112233445566778899&port=6881&uploaded=0&downloaded=0&left=");
    let l: i32 = #[verifier::truncate] (left as i32);
    push_i64(&mut url, l as i64);
    url.append("&compact=1&info_hash=");
    url.append(info_encoded.as_str());
    url
}


/// A value of a tracker's response dictionary, as far as the response is
/// read: integers and byte strings, and the kind of anything else.
#[derive(Debug, PartialEq, Eq)]
pub enum TrackerValue {
    Int(i64),
    Bytes(Vec<u8>),
    /// A list (its items are not read).
    List,
    /// A dictionary (its entries are not read).
    Dict,
}

/// The model of a [`TrackerValue`].
pub enum TrackerValueView {
    Int(i64),
    Bytes(Seq<u8>),
    List,
    Dict,
}

impl View for TrackerValue {
    type V = TrackerValueView;

    open spec fn view(&self) -> TrackerValueView {
        match self {
            TrackerValue::Int(i) => TrackerValueView::Int(*i),
            TrackerValue::Bytes(b) => TrackerValueView::Bytes(b@),
            TrackerValue::List => TrackerValueView::List,
            TrackerValue::Dict => TrackerValueView::Dict,
        }
    }
}

impl TrackerValue {
    /// The integer, for an integer value.
    pub fn as_integer(&self) -> (res: Option<i64>)
        ensures
            res == (match self@ {
                TrackerValueView::Int(i) => Some(i),
                _ => None::<i64>,
            }),
    {
        match self {
            TrackerValue::Int(val) => Some(*val),
            _ => None,
        }
    }

    /// The bytes, for a byte-string value.
    pub fn as_bytes(&self) -> (res: Option<&Vec<u8>>)
        ensures
            match self@ {
                TrackerValueView::Bytes(b) => res matches Some(v) && v@ == b,
                _ => res is None,
            },
    {
        match self {
            TrackerValue::Bytes(val) => Some(val),
            _ => None,
        }
    }
}

/// The dictionary that `serde_bencode` reads from `bytes` as a
/// `serde_bencode::value::Value`, from keys to values; `None` when the bytes
/// are refused or hold another kind of value.
pub uninterp spec fn serde_bencode_dict(bytes: Seq<u8>) -> Option<Map<Seq<u8>, TrackerValueView>>;

/// The map that a list of entries gives, a later entry for a key replacing an
/// earlier one.
pub open spec fn entries_map(es: Seq<(Vec<u8>, TrackerValue)>) -> Map<Seq<u8>, TrackerValueView>
    decreases es.len(),
{
    if es.len() == 0 {
        Map::empty()
    } else {
        entries_map(es.drop_last()).insert(es.last().0@, es.last().1@)
    }
}

/// Runs `serde_bencode::de::from_bytes::<Value>` on `bytes` and, for a
/// dictionary, hands back its entries, each value by its kind (the contents
/// of nested lists and dictionaries are dropped). The order of the entries
/// is that of a `HashMap` walk, so the contract claims only that they make
/// up the named map [`serde_bencode_dict`] of `bytes`.
#[verifier::external_body]
fn bencode_dict_entries(bytes: &[u8]) -> (res: Option<Vec<(Vec<u8>, TrackerValue)>>)
    ensures
        res is Some <==> serde_bencode_dict(bytes@) is Some,
        res matches Some(es) ==> entries_map(es@) == serde_bencode_dict(bytes@).unwrap(),
{
    match serde_bencode::de::from_bytes::<Value>(bytes) {
        Ok(Value::Dict(dict)) => Some(dict.into_iter().map(|(k, v)| (k, match v {
            Value::Int(i) => TrackerValue::Int(i),
            Value::Bytes(b) => TrackerValue::Bytes(b),
            Value::List(_) => TrackerValue::List,
            Value::Dict(_) => TrackerValue::Dict,
        })).collect()),
        Ok(Value::Int(_)) => None,
        Ok(Value::Bytes(_)) => None,
        Ok(Value::List(_)) => None,
        Err(_) => None,
    }
}

pub open spec fn key_interval() -> Seq<u8> {
    seq![105u8, 110, 116, 101, 114, 118, 97, 108]
}

pub open spec fn key_peers() -> Seq<u8> {
    seq![112u8, 101, 101, 114, 115]
}

pub open spec fn key_complete() -> Seq<u8> {
    seq![99u8, 111, 109, 112, 108, 101, 116, 101]
}

pub open spec fn key_incomplete() -> Seq<u8> {
    seq![105u8, 110, 99, 111, 109, 112, 108, 101, 116, 101]
}

pub open spec fn key_min_interval() -> Seq<u8> {
    seq![109u8, 105, 110, 32, 105, 110, 116, 101, 114, 118, 97, 108]
}

pub open spec fn key_downloaded() -> Seq<u8> {
    seq![100u8, 111, 119, 110, 108, 111, 97, 100, 101, 100]
}

pub open spec fn key_uploaded() -> Seq<u8> {
    seq![117u8, 112, 108, 111, 97, 100, 101, 100]
}

/// A tracker's response.
#[derive(Debug)]
pub struct TrackerResponseSerdeBencode {
    pub interval: Option<i32>,
    pub peers: Option<Vec<u8>>,
    pub complete: Option<i32>,
    pub incomplete: Option<i32>,
    pub min_interval: Option<i32>,
}

/// The model of a [`TrackerResponseSerdeBencode`].
pub struct TrackerSummary {
    pub interval: Option<i32>,
    pub peers: Option<Seq<u8>>,
    pub complete: Option<i32>,
    pub incomplete: Option<i32>,
    pub min_interval: Option<i32>,
}

impl View for TrackerResponseSerdeBencode {
    type V = TrackerSummary;

    open spec fn view(&self) -> TrackerSummary {
        TrackerSummary {
            interval: self.interval,
            peers: match self.peers {
                Some(p) => Some(p@),
                None => None,
            },
            complete: self.complete,
            incomplete: self.incomplete,
            min_interval: self.min_interval,
        }
    }
}

/// The value that a map holds for `key`.
pub open spec fn lookup(m: Map<Seq<u8>, TrackerValueView>, key: Seq<u8>) -> Option<TrackerValueView> {
    if m.dom().contains(key) {
        Some(m[key])
    } else {
        None
    }
}

/// An integer field: the integer truncated to `i32`, for an integer value.
pub open spec fn int_field(v: Option<TrackerValueView>) -> Option<i32> {
    match v {
        Some(TrackerValueView::Int(i)) => Some(i as i32),
        _ => None,
    }
}

/// A byte-string field.
pub open spec fn bytes_field(v: Option<TrackerValueView>) -> Option<Seq<u8>> {
    match v {
        Some(TrackerValueView::Bytes(b)) => Some(b),
        _ => None,
    }
}

/// The response that a dictionary holds: `interval`, `complete`,
/// `incomplete` and `min interval` from integers, `peers` from a byte
/// string; a field is absent when its key is, or holds another kind of value.
pub open spec fn summary_of(m: Map<Seq<u8>, TrackerValueView>) -> TrackerSummary {
    TrackerSummary {
        interval: int_field(lookup(m, key_interval())),
        peers: bytes_field(lookup(m, key_peers())),
        complete: int_field(lookup(m, key_complete())),
        incomplete: int_field(lookup(m, key_incomplete())),
        min_interval: int_field(lookup(m, key_min_interval())),
    }
}

proof fn lemma_entries_map_push(es: Seq<(Vec<u8>, TrackerValue)>, e: (Vec<u8>, TrackerValue))
    ensures
        entries_map(es.push(e)) == entries_map(es).insert(e.0@, e.1@),
{
    assert(es.push(e).drop_last() =~= es);
}

impl TrackerResponseSerdeBencode {
    /// The response that a dictionary's entries hold, as [`summary_of`]
    /// states of the map they make up.
    pub fn from_entries(entries: &Vec<(Vec<u8>, TrackerValue)>) -> (res: TrackerResponseSerdeBencode)
        ensures
            res@ == summary_of(entries_map(entries@)),
    {
        let mut interval: Option<i32> = None;
        let mut peers: Option<Vec<u8>> = None;
        let mut complete: Option<i32> = None;
        let mut incomplete: Option<i32> = None;
        let mut min_interval: Option<i32> = None;
        let k_interval: [u8; 8] = [105u8, 110, 116, 101, 114, 118, 97, 108];
        let k_peers: [u8; 5] = [112u8, 101, 101, 114, 115];
        let k_complete: [u8; 8] = [99u8, 111, 109, 112, 108, 101, 116, 101];
        let k_incomplete: [u8; 10] = [105u8, 110, 99, 111, 109, 112, 108, 101, 116, 101];
        let k_min_interval: [u8; 12] = [109u8, 105, 110, 32, 105, 110, 116, 101, 114, 118, 97, 108];
        assert(k_interval@ =~= key_interval());
        assert(k_peers@ =~= key_peers());
        assert(k_complete@ =~= key_complete());
        assert(k_incomplete@ =~= key_incomplete());
        assert(k_min_interval@ =~= key_min_interval());
        let mut i: usize = 0;
        assert(entries@.take(0) =~= Seq::<(Vec<u8>, TrackerValue)>::empty());
        while i < entries.len()
            invariant
                i <= entries.len(),
                k_interval@ == key_interval(),
                k_peers@ == key_peers(),
                k_complete@ == key_complete(),
                k_incomplete@ == key_incomplete(),
                k_min_interval@ == key_min_interval(),
                ({
                    let m = entries_map(entries@.take(i as int));
                    let sum = summary_of(m);
                    &&& interval == sum.interval
                    &&& complete == sum.complete
                    &&& incomplete == sum.incomplete
                    &&& min_interval == sum.min_interval
                    &&& match peers {
                        Some(p) => sum.peers == Some(p@),
                        None => sum.peers is None,
                    }
                }),
            decreases entries.len() - i,
        {
            let (key, value) = &entries[i];
            proof {
                assert(entries@.take(i + 1) =~= entries@.take(i as int).push(entries@[i as int]));
                lemma_entries_map_push(entries@.take(i as int), entries@[i as int]);
            }
            if bytes_equal(key.as_slice(), &k_interval) {
                interval = match value.as_integer() {
                    Some(x) => Some(#[verifier::truncate] (x as i32)),
                    None => None,
                };
            } else if bytes_equal(key.as_slice(), &k_peers) {
                peers = match value.as_bytes() {
                    Some(x) => {
                        let c = x.clone();
                        assert(c@ =~= x@);
                        Some(c)
                    },
                    None => None,
                };
            } else if bytes_equal(key.as_slice(), &k_complete) {
                complete = match value.as_integer() {
                    Some(x) => Some(#[verifier::truncate] (x as i32)),
                    None => None,
                };
            } else if bytes_equal(key.as_slice(), &k_incomplete) {
                incomplete = match value.as_integer() {
                    Some(x) => Some(#[verifier::truncate] (x as i32)),
                    None => None,
                };
            } else if bytes_equal(key.as_slice(), &k_min_interval) {
                min_interval = match value.as_integer() {
                    Some(x) => Some(#[verifier::truncate] (x as i32)),
                    None => None,
                };
            }
            i = i + 1;
        }
        assert(entries@.take(entries.len() as int) =~= entries@);
        TrackerResponseSerdeBencode { interval, peers, complete, incomplete, min_interval }
    }
}

/// Reads a tracker's response with `serde_bencode`: `Ok` exactly when the
/// response is a dictionary that `serde_bencode` accepts, holding the fields
/// that [`summary_of`] states.
pub fn get_serde_bencode_tracker_response(tracker_response: Vec<u8>) -> (res: Result<TrackerResponseSerdeBencode, TrackerParseError>)
    ensures
        match serde_bencode_dict(tracker_response@) {
            Some(m) => res matches Ok(r) && r@ == summary_of(m),
            None => res == Err::<TrackerResponseSerdeBencode, TrackerParseError>(TrackerParseError::CouldNotParse),
        },
{
    match bencode_dict_entries(tracker_response.as_slice()) {
        Some(entries) => Ok(TrackerResponseSerdeBencode::from_entries(&entries)),
        None => Err(TrackerParseError::CouldNotParse),
    }
}


/// A peer's address: an IPv4 address and a port.
#[derive(Debug, PartialEq, Eq, Clone, Copy)]
pub struct PeerAddr {
    pub ip: [u8; 4],
    pub port: u16,
}

/// Why the peer list could not be read.
#[derive(Debug, PartialEq, Eq)]
pub enum PeerListError {
    /// There is no peer list, or its length is not a multiple of 6.
    InvalidIpAndPort,
}

impl PeerListError {
    /// The error's text.
    pub fn to_string(&self) -> (res: String)
        ensures
            res@ == "Invalid ip and port"@,
    {
        String::from_str("Invalid ip and port")
    }
}

/// Why a tracker's response could not be read.
#[derive(Debug, PartialEq, Eq)]
pub enum TrackerParseError {
    /// The response is not a dictionary that `serde_bencode` accepts.
    CouldNotParse,
}

impl TrackerParseError {
    /// The error's text.
    pub fn to_string(&self) -> (res: String)
        ensures
            res@ == "Parse Error: Could not parse"@,
    {
        String::from_str("Parse Error: Could not parse")
    }
}

/// The six bytes that describe the `k`-th peer in a compact peer list.
pub open spec fn peer_chunk(peers: Seq<u8>, k: int) -> Seq<u8> {
    peers.subrange(6 * k, 6 * k + 6)
}

/// The port of a six-byte peer description: its last two bytes, big-endian.
pub open spec fn chunk_port(c: Seq<u8>) -> int {
    c[4] * 256 + c[5]
}

/// How `{:?}` writes an optional integer.
pub open spec fn option_debug(o: Option<i32>) -> Seq<char> {
    match o {
        Some(v) => "Some("@ + signed_decimal(v as int) + ")"@,
        None => "None"@,
    }
}

/// The line written for a response without a peer list.
pub open spec fn status_line(interval: Option<i32>, complete: Option<i32>, incomplete: Option<i32>, min_interval: Option<i32>) -> Seq<char> {
    "interval: "@ + option_debug(interval) + ", complete: "@ + option_debug(complete) + ", incomplete: "@
        + option_debug(incomplete) + ", min_interval: "@ + option_debug(min_interval) + seq!['\n']
}

/// The first four bytes of a peer description as a dotted IPv4 address.
pub open spec fn dotted_ip(c: Seq<u8>) -> Seq<char> {
    decimal(c[0] as nat) + seq!['.'] + decimal(c[1] as nat) + seq!['.'] + decimal(c[2] as nat) + seq!['.']
        + decimal(c[3] as nat)
}

/// The line written for one peer: `ip:port`.
pub open spec fn peer_line(c: Seq<u8>) -> Seq<char> {
    dotted_ip(c) + seq![':'] + decimal(chunk_port(c) as nat) + seq!['\n']
}

/// The lines written for the first `n` peers of a compact peer list.
pub open spec fn peer_lines(peers: Seq<u8>, n: nat) -> Seq<char>
    decreases n,
{
    if n == 0 {
        Seq::empty()
    } else {
        peer_lines(peers, (n - 1) as nat) + peer_line(peer_chunk(peers, n - 1))
    }
}

/// What displaying a response writes: a line per peer for a peer list whose
/// length is a multiple of 6, the status line when there is no peer list;
/// `None` (a formatting error) for a peer list of another length.
pub open spec fn summary_text(r: TrackerSummary) -> Option<Seq<char>> {
    match r.peers {
        Some(p) => if p.len() % 6 != 0 {
            None
        } else {
            Some(peer_lines(p, p.len() / 6))
        },
        None => Some(status_line(r.interval, r.complete, r.incomplete, r.min_interval)),
    }
}

/// Appends what `{:?}` writes for `o`.
fn push_option_debug(s: &mut String, o: Option<i32>)
    ensures
        final(s)@ == old(s)@ + option_debug(o),
{
    match o {
        Some(v) => {
            s.append("Some(");
            push_i64(s, v as i64);
            s.append(")");
        },
        None => {
            s.append("None");
        },
    }
}

/// Appends the status line.
pub(crate) fn push_status_line(s: &mut String, interval: Option<i32>, complete: Option<i32>, incomplete: Option<i32>, min_interval: Option<i32>)
    ensures
        final(s)@ == old(s)@ + status_line(interval, complete, incomplete, min_interval),
{
    s.append("interval: ");
    push_option_debug(s, interval);
    s.append(", complete: ");
    push_option_debug(s, complete);
    s.append(", incomplete: ");
    push_option_debug(s, incomplete);
    s.append(", min_interval: ");
    push_option_debug(s, min_interval);
    push_char(s, '\n');
    assert(final(s)@ =~= old(s)@ + status_line(interval, complete, incomplete, min_interval));
}

/// Appends the dotted IPv4 address of the peer whose description starts at
/// `at`.
pub(crate) fn push_dotted_ip(s: &mut String, peers: &Vec<u8>, at: usize)
    requires
        at + 6 <= peers.len(),
    ensures
        final(s)@ == old(s)@ + dotted_ip(peers@.subrange(at as int, at + 6)),
{
    let ghost c = peers@.subrange(at as int, at + 6);
    push_decimal(s, peers[at] as u64);
    push_char(s, '.');
    push_decimal(s, peers[at + 1] as u64);
    push_char(s, '.');
    push_decimal(s, peers[at + 2] as u64);
    push_char(s, '.');
    push_decimal(s, peers[at + 3] as u64);
    assert(final(s)@ =~= old(s)@ + dotted_ip(c));
}

impl TrackerResponseSerdeBencode {
    /// The peers of a compact peer list: for each six bytes, an IPv4 address
    /// and a big-endian port. An error when there is no peer list or its
    /// length is not a multiple of 6.
    pub fn peers_as_ip_and_port(&self) -> (res: Result<Vec<PeerAddr>, PeerListError>)
        ensures
            match self.peers {
                Some(p) => if p@.len() % 6 == 0 {
                    res matches Ok(v) && v@.len() == p@.len() / 6 && forall|k: int| 0 <= k < v@.len() ==> {
                        &&& (#[trigger] v@[k]).ip@ == peer_chunk(p@, k).take(4)
                        &&& v@[k].port == chunk_port(peer_chunk(p@, k))
                    }
                } else {
                    res == Err::<Vec<PeerAddr>, PeerListError>(PeerListError::InvalidIpAndPort)
                },
                None => res == Err::<Vec<PeerAddr>, PeerListError>(PeerListError::InvalidIpAndPort),
            },
    {
        match &self.peers {
            Some(peers) => {
                if peers.len() % 6 != 0 {
                    return Err(PeerListError::InvalidIpAndPort);
                }
                let n = peers.len() / 6;
                let mut result: Vec<PeerAddr> = Vec::new();
                let mut k: usize = 0;
                while k < n
                    invariant
                        k <= n,
                        n == peers@.len() / 6,
                        peers@.len() % 6 == 0,
                        result@.len() == k,
                        forall|j: int| 0 <= j < k ==> {
                            &&& (#[trigger] result@[j]).ip@ == peer_chunk(peers@, j).take(4)
                            &&& result@[j].port == chunk_port(peer_chunk(peers@, j))
                        },
                    decreases n - k,
                {
                    assert(6 * k + 6 <= peers.len()) by (nonlinear_arith)
                        requires k < n, n == peers@.len() / 6;
                    let at = 6 * k;
                    let ip: [u8; 4] = [peers[at], peers[at + 1], peers[at + 2], peers[at + 3]];
                    let port: u16 = (peers[at + 4] as u16) * 256 + (peers[at + 5] as u16);
                    let ghost c = peer_chunk(peers@, k as int);
                    assert(ip@ =~= c.take(4));
                    result.push(PeerAddr { ip, port });
                    k = k + 1;
                }
                Ok(result)
            },
            None => Err(PeerListError::InvalidIpAndPort),
        }
    }

    /// The text that displaying the response writes, as [`summary_text`]
    /// states; `None` where formatting fails.
    pub fn display_string(&self) -> (res: Option<String>)
        ensures
            match summary_text(self@) {
                Some(t) => res matches Some(s) && s@ == t,
                None => res is None,
            },
    {
        let mut out = String::new();
        match &self.peers {
            Some(peers) => {
                if peers.len() % 6 != 0 {
                    return None;
                }
                let n = peers.len() / 6;
                let mut k: usize = 0;
                assert(out@ =~= peer_lines(peers@, 0));
                while k < n
                    invariant
                        k <= n,
                        n == peers@.len() / 6,
                        out@ == peer_lines(peers@, k as nat),
                    decreases n - k,
                {
                    assert(6 * k + 6 <= peers.len()) by (nonlinear_arith)
                        requires k < n, n == peers@.len() / 6;
                    let at = 6 * k;
                    let ghost c = peer_chunk(peers@, k as int);
                    push_dotted_ip(&mut out, peers, at);
                    push_char(&mut out, ':');
                    let port: u16 = (peers[at + 4] as u16) * 256 + (peers[at + 5] as u16);
                    push_decimal(&mut out, port as u64);
                    push_char(&mut out, '\n');
                    assert(out@ =~= peer_lines(peers@, (k + 1) as nat));
                    k = k + 1;
                }
                Some(out)
            },
            None => {
                push_status_line(&mut out, self.interval, self.complete, self.incomplete, self.min_interval);
                assert(out@ =~= status_line(self.interval, self.complete, self.incomplete, self.min_interval));
                Some(out)
            },
        }
    }
}


/// The line written for a peer address: `ip:port`.
pub open spec fn addr_line(a: PeerAddr) -> Seq<char> {
    decimal(a.ip[0] as nat) + seq!['.'] + decimal(a.ip[1] as nat) + seq!['.'] + decimal(a.ip[2] as nat) + seq!['.']
        + decimal(a.ip[3] as nat) + seq![':'] + decimal(a.port as nat) + seq!['\n']
}

/// The lines written for the first `n` of a list of peer addresses.
pub open spec fn addr_lines(addrs: Seq<PeerAddr>, n: nat) -> Seq<char>
    decreases n,
{
    if n == 0 {
        Seq::empty()
    } else {
        addr_lines(addrs, (n - 1) as nat) + addr_line(addrs[n - 1])
    }
}

/// Displaying a response with a peer list writes one line per peer that
/// [`TrackerResponseSerdeBencode::peers_as_ip_and_port`] reads, in the same
/// order: the peer's address and port.
pub proof fn lemma_display_lists_peers(r: TrackerSummary, addrs: Seq<PeerAddr>)
    requires
        r.peers matches Some(p) && p.len() % 6 == 0 && addrs.len() == p.len() / 6,
        forall|k: int| 0 <= k < addrs.len() ==> {
            &&& (#[trigger] addrs[k]).ip@ == peer_chunk(r.peers.unwrap(), k).take(4)
            &&& addrs[k].port == chunk_port(peer_chunk(r.peers.unwrap(), k))
        },
    ensures
        summary_text(r) == Some(addr_lines(addrs, addrs.len())),
{
    lemma_peer_lines_addr_lines(r.peers.unwrap(), addrs, addrs.len());
}

proof fn lemma_peer_lines_addr_lines(p: Seq<u8>, addrs: Seq<PeerAddr>, n: nat)
    requires
        n <= addrs.len(),
        addrs.len() * 6 <= p.len(),
        forall|k: int| 0 <= k < addrs.len() ==> {
            &&& (#[trigger] addrs[k]).ip@ == peer_chunk(p, k).take(4)
            &&& addrs[k].port == chunk_port(peer_chunk(p, k))
        },
    ensures
        peer_lines(p, n) == addr_lines(addrs, n),
    decreases n,
{
    if n > 0 {
        lemma_peer_lines_addr_lines(p, addrs, (n - 1) as nat);
        let k = n - 1;
        let a = addrs[k];
        let c = peer_chunk(p, k);
        assert(a.ip@ == c.take(4));
        assert(a.ip[0] == c[0] && a.ip[1] == c[1] && a.ip[2] == c[2] && a.ip[3] == c[3]) by {
            assert(a.ip@[0] == c.take(4)[0]);
            assert(a.ip@[1] == c.take(4)[1]);
            assert(a.ip@[2] == c.take(4)[2]);
            assert(a.ip@[3] == c.take(4)[3]);
        }
        assert(peer_line(c) =~= addr_line(a));
    }
}

} // verus!
