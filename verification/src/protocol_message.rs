//! Peer wire messages, and downloading a piece from a peer.
use vstd::prelude::*;
use vstd::string::*;

use sha1::{Digest, Sha1};

verus! {

/// The kinds of peer wire messages, in the order of their ids.
#[derive(Debug, Clone, Copy, PartialEq, Eq, Structural)]
pub enum ProtocolMessageType {
    _KeepAlive,
    Unchoke,
    Interested,
    _NotInterested,
    _NotUsedInChallenge,
    _NotUsedInChallenge2,
    Request,
    Bitfield,
    Piece,
    _Port,
}

/// Why a message could not be read.
#[derive(Debug, PartialEq, Eq)]
pub enum MessageError {
    /// The message's id names no kind that this client reads.
    InvalidMessageType,
}

impl MessageError {
    /// The error's text.
    pub fn to_string(&self) -> (res: String)
        ensures
            res@ == "Invalid message type"@,
    {
        String::from_str("Invalid message type")
    }
}

/// The id that a message kind is written with: its position among the kinds.
pub open spec fn type_code(t: ProtocolMessageType) -> u8 {
    match t {
        ProtocolMessageType::_KeepAlive => 0,
        ProtocolMessageType::Unchoke => 1,
        ProtocolMessageType::Interested => 2,
        ProtocolMessageType::_NotInterested => 3,
        ProtocolMessageType::_NotUsedInChallenge => 4,
        ProtocolMessageType::_NotUsedInChallenge2 => 5,
        ProtocolMessageType::Request => 6,
        ProtocolMessageType::Bitfield => 7,
        ProtocolMessageType::Piece => 8,
        ProtocolMessageType::_Port => 9,
    }
}

/// The kind that an id read from a peer stands for.
pub open spec fn type_of_code(val: u8) -> Option<ProtocolMessageType> {
    if val == 1 {
        Some(ProtocolMessageType::Unchoke)
    } else if val == 2 {
        Some(ProtocolMessageType::Interested)
    } else if val == 5 {
        Some(ProtocolMessageType::Bitfield)
    } else if val == 6 {
        Some(ProtocolMessageType::Request)
    } else if val == 7 {
        Some(ProtocolMessageType::Piece)
    } else {
        None
    }
}

impl ProtocolMessageType {
    /// The id that the kind is written with.
    pub fn as_u8(self) -> (res: u8)
        ensures
            res == type_code(self),
    {
        match self {
            ProtocolMessageType::_KeepAlive => 0,
            ProtocolMessageType::Unchoke => 1,
            ProtocolMessageType::Interested => 2,
            ProtocolMessageType::_NotInterested => 3,
            ProtocolMessageType::_NotUsedInChallenge => 4,
            ProtocolMessageType::_NotUsedInChallenge2 => 5,
            ProtocolMessageType::Request => 6,
            ProtocolMessageType::Bitfield => 7,
            ProtocolMessageType::Piece => 8,
            ProtocolMessageType::_Port => 9,
        }
    }

    /// The kind that an id read from a peer stands for.
    pub fn from_u8(val: u8) -> (res: Result<Self, MessageError>)
        ensures
            match type_of_code(val) {
                Some(t) => res == Ok::<ProtocolMessageType, MessageError>(t),
                None => res == Err::<ProtocolMessageType, MessageError>(MessageError::InvalidMessageType),
            },
    {
        match val {
            1 => Ok(ProtocolMessageType::Unchoke),
            2 => Ok(ProtocolMessageType::Interested),
            5 => Ok(ProtocolMessageType::Bitfield),
            6 => Ok(ProtocolMessageType::Request),
            7 => Ok(ProtocolMessageType::Piece),
            _ => Err(MessageError::InvalidMessageType),
        }
    }
}

/// A peer wire message.
#[derive(Debug, Clone)]
pub struct ProtocolMessage {
    /// The message's length as this client counts it: the 4 bytes of the
    /// length prefix, the id and the payload.
    pub length: u32,
    pub message_type: ProtocolMessageType,
    pub payload: Vec<u8>,
}

/// The model of a [`ProtocolMessage`].
pub struct MessageView {
    pub length: u32,
    pub message_type: ProtocolMessageType,
    pub payload: Seq<u8>,
}

impl View for ProtocolMessage {
    type V = MessageView;

    open spec fn view(&self) -> MessageView {
        MessageView { length: self.length, message_type: self.message_type, payload: self.payload@ }
    }
}

/// The four big-endian bytes of `v`.
pub open spec fn be_bytes(v: u32) -> Seq<u8> {
    seq![(v / 0x1000000) as u8, ((v / 0x10000) % 256) as u8, ((v / 0x100) % 256) as u8, (v % 256) as u8]
}

/// The bytes of a message: its length, big-endian, its id, its payload.
pub open spec fn serialized(m: MessageView) -> Seq<u8> {
    be_bytes(m.length) + seq![type_code(m.message_type)] + m.payload
}

/// The message read from `response`, the bytes that follow a length prefix:
/// the id is its first byte, the payload the rest, the length the number of
/// bytes (as a `u32`) plus 4.
pub open spec fn deserialized(response: Seq<u8>) -> Result<MessageView, MessageError> {
    match type_of_code(response[0]) {
        Some(t) => Ok(MessageView {
            length: ((response.len() as u32) + 4) as u32,
            message_type: t,
            payload: response.skip(1),
        }),
        None => Err(MessageError::InvalidMessageType),
    }
}

/// Appends the four big-endian bytes of `v`.
pub fn push_be_u32(out: &mut Vec<u8>, v: u32)
    ensures
        final(out)@ == old(out)@ + be_bytes(v),
{
    out.push((v / 0x1000000) as u8);
    out.push(((v / 0x10000) % 256) as u8);
    out.push(((v / 0x100) % 256) as u8);
    out.push((v % 256) as u8);
    assert(final(out)@ =~= old(out)@ + be_bytes(v));
}

/// Appends all of `src`.
pub fn extend_bytes(out: &mut Vec<u8>, src: &[u8])
    ensures
        final(out)@ == old(out)@ + src@,
{
    let mut i: usize = 0;
    while i < src.len()
        invariant
            i <= src.len(),
            out@ == old(out)@ + src@.take(i as int),
        decreases src.len() - i,
    {
        out.push(src[i]);
        assert(src@.take(i + 1) =~= src@.take(i as int).push(src@[i as int]));
        i = i + 1;
    }
    assert(src@.take(src.len() as int) =~= src@);
}

impl ProtocolMessage {
    /// The bytes of the message, as [`serialized`] states.
    pub fn serialize(&self) -> (res: Vec<u8>)
        ensures
            res@ == serialized(self@),
    {
        let mut result = Vec::new();
        push_be_u32(&mut result, self.length);
        result.push(self.message_type.as_u8());
        extend_bytes(&mut result, self.payload.as_slice());
        assert(result@ =~= serialized(self@));
        result
    }

    /// Reads a message from the bytes that follow its length prefix, as
    /// [`deserialized`] states.
    pub fn deserialize(response: &Vec<u8>) -> (res: Result<ProtocolMessage, MessageError>)
        requires
            response@.len() >= 1,
            (response@.len() as u32) + 4 <= u32::MAX,
        ensures
            match deserialized(response@) {
                Ok(m) => res matches Ok(msg) && msg@ == m,
                Err(e) => res matches Err(e2) && e2 == e,
            },
    {
        let n: u32 = #[verifier::truncate] (response.len() as u32);
        let length = n + 4;
        let message_type = match ProtocolMessageType::from_u8(response[0]) {
            Ok(t) => t,
            Err(e) => {
                return Err(e);
            },
        };
        let mut payload: Vec<u8> = Vec::new();
        let mut i: usize = 1;
        while i < response.len()
            invariant
                1 <= i <= response.len(),
                payload@ == response@.subrange(1, i as int),
            decreases response.len() - i,
        {
            payload.push(response[i]);
            assert(response@.subrange(1, i + 1) =~= response@.subrange(1, i as int).push(response@[i as int]));
            i = i + 1;
        }
        assert(payload@ =~= response@.skip(1));
        Ok(ProtocolMessage { length, message_type, payload })
    }
}

/// An id written by [`ProtocolMessageType::as_u8`] reads back as the same
/// kind for `Unchoke`, `Interested` and `Request`. (`Bitfield` is written as
/// 7, which reads as `Piece`; `Piece` is written as 8, which reads as no
/// kind; the other kinds are never read.)
pub proof fn lemma_message_type_roundtrip(t: ProtocolMessageType)
    requires
        t == ProtocolMessageType::Unchoke || t == ProtocolMessageType::Interested
            || t == ProtocolMessageType::Request,
    ensures
        type_of_code(type_code(t)) == Some(t),
{
}

/// Every id that reads as a kind is the id that kind is written with, but
/// for `Bitfield` (read from 5) and `Piece` (read from 7).
pub proof fn lemma_message_code_roundtrip(val: u8)
    requires
        type_of_code(val) matches Some(t) && t != ProtocolMessageType::Bitfield
            && t != ProtocolMessageType::Piece,
    ensures
        type_code(type_of_code(val).unwrap()) == val,
{
}

/// Reading the bytes of a message after its length prefix gives the message
/// back, when its length counts the prefix, the id and the payload and its
/// kind reads back (see [`lemma_message_type_roundtrip`]).
pub proof fn lemma_serialize_deserialize(m: MessageView)
    requires
        m.length == 5 + m.payload.len(),
        m.message_type == ProtocolMessageType::Unchoke || m.message_type == ProtocolMessageType::Interested
            || m.message_type == ProtocolMessageType::Request,
    ensures
        deserialized(serialized(m).skip(4)) == Ok::<MessageView, MessageError>(m),
        serialized(m).len() == m.length,
{
    let body = serialized(m).skip(4);
    assert(body =~= seq![type_code(m.message_type)] + m.payload);
    assert(body.skip(1) =~= m.payload);
    assert(body.len() as u32 == body.len());
}


/// The SHA-1 digest of `data`.
pub uninterp spec fn sha1_of(data: Seq<u8>) -> Seq<u8>;

/// Hashes `data` with `sha1::Sha1` (new, update, finalize). The contract
/// claims that the result is the named digest [`sha1_of`] of `data` and that
/// it is 20 bytes long, the hash's output size.
#[verifier::external_body]
pub(crate) fn sha1_digest(data: &[u8]) -> (res: Vec<u8>)
    ensures
        res@ == sha1_of(data@),
        res@.len() == 20,
{
    let mut hasher = Sha1::new();
    hasher.update(data);
    hasher.finalize().to_vec()
}

/// The hash that a torrent's hash list gives for a piece: its
/// `piece_index`-th run of 20 bytes (the last run may be shorter); `None`
/// when the list has no such run.
pub open spec fn listed_hash(hashes: Seq<u8>, piece_index: int) -> Option<Seq<u8>> {
    if 20 * piece_index < hashes.len() {
        let end = if 20 * piece_index + 20 <= hashes.len() { 20 * piece_index + 20 } else { hashes.len() as int };
        Some(hashes.subrange(20 * piece_index, end))
    } else {
        None
    }
}

/// The hash list is read as consecutive runs of 20 bytes: the first run is
/// the list's first 20 bytes (fewer where the list is shorter, none where it
/// is empty), and dropping the first `k` runs from the list moves every later
/// piece `k` places forward, whatever the indices. A piece whose run would
/// start at or past the list's end has no hash.
pub proof fn lemma_listed_hash_runs(hashes: Seq<u8>, k: int, i: int)
    requires
        0 <= k,
        0 <= i,
        20 * k <= hashes.len(),
    ensures
        listed_hash(hashes, 0) == (if hashes.len() == 0 {
            None
        } else {
            Some(hashes.take(if hashes.len() < 20 { hashes.len() as int } else { 20 }))
        }),
        listed_hash(hashes, k + i) == listed_hash(hashes.skip(20 * k), i),
        hashes.len() <= 20 * i ==> listed_hash(hashes, i) is None,
{
    let rest = hashes.skip(20 * k);
    assert(20 * (k + i) == 20 * k + 20 * i) by (nonlinear_arith);
    assert(0 <= 20 * i) by (nonlinear_arith) requires 0 <= i;
    if 20 * (k + i) < hashes.len() {
        let end = if 20 * i + 20 <= rest.len() { 20 * i + 20 } else { rest.len() as int };
        assert(hashes.subrange(20 * (k + i), 20 * k + end) =~= rest.subrange(20 * i, end));
    }
    if hashes.len() > 0 {
        let e = if hashes.len() < 20 { hashes.len() as int } else { 20 };
        assert(hashes.subrange(0, e) =~= hashes.take(e));
    }
}

/// Whether the listed hash of a piece agrees with `digest` on every byte it has.
pub open spec fn digest_matches(hashes: Seq<u8>, piece_index: int, digest: Seq<u8>) -> bool {
    match listed_hash(hashes, piece_index) {
        Some(h) => h == digest.take(h.len() as int),
        None => false,
    }
}

/// Whether the data of a piece has the hash that the torrent lists for it.
pub open spec fn piece_verified(hashes: Seq<u8>, piece_index: int, data: Seq<u8>) -> bool {
    digest_matches(hashes, piece_index, sha1_of(data))
}

/// Compares a digest with the hash that the torrent lists for a piece, as
/// [`digest_matches`] states.
pub fn piece_digest_matches(hashes: &Vec<u8>, piece_index: u32, digest: &Vec<u8>) -> (res: bool)
    requires
        digest@.len() >= 20,
    ensures
        res == digest_matches(hashes@, piece_index as int, digest@),
{
    let start: u64 = 20 * (piece_index as u64);
    if start >= hashes.len() as u64 {
        return false;
    }
    let start = start as usize;
    let end: usize = if hashes.len() - start >= 20 { start + 20 } else { hashes.len() };
    let ghost h = hashes@.subrange(start as int, end as int);
    let mut i: usize = 0;
    while i < end - start
        invariant
            start < end <= hashes.len(),
            start == 20 * piece_index,
            end == (if 20 * piece_index + 20 <= hashes.len() { 20 * piece_index + 20 } else { hashes.len() as int }),
            end - start <= 20,
            digest@.len() >= 20,
            h == hashes@.subrange(start as int, end as int),
            i <= end - start,
            forall|k: int| 0 <= k < i ==> h[k] == digest@[k],
        decreases end - start - i,
    {
        if hashes[start + i] != digest[i] {
            assert(h[i as int] != digest@.take(h.len() as int)[i as int]);
            return false;
        }
        i = i + 1;
    }
    assert(h =~= digest@.take(h.len() as int));
    true
}

/// Whether the data of a piece has the hash that the torrent lists for it,
/// as [`piece_verified`] states.
pub fn piece_hash_matches(hashes: &Vec<u8>, piece_index: u32, data: &Vec<u8>) -> (res: bool)
    ensures
        res == piece_verified(hashes@, piece_index as int, data@),
{
    let digest = sha1_digest(data.as_slice());
    piece_digest_matches(hashes, piece_index, &digest)
}

/// The length of the blocks in which a piece is requested.
pub const BLOCK_LENGTH: u32 = 16384;

/// Where a piece download stands: what it waits for.
#[derive(Debug, Clone, Copy, PartialEq, Eq, Structural)]
pub enum DownloadStage {
    /// The peer's bitfield message.
    AwaitBitfield,
    /// The peer's answer to `interested`.
    AwaitUnchoke,
    /// The answer to the first request, which is not kept.
    AwaitFirstBlock,
    /// The answer to a later request.
    AwaitBlock,
    /// Nothing: the download has ended.
    Finished,
}

/// Why a piece download failed.
#[derive(Debug, Clone, Copy, PartialEq, Eq, Structural)]
pub enum DownloadError {
    /// A message from the peer could not be read.
    InvalidMessage,
    /// The downloaded data does not have the hash the torrent lists.
    HashMismatch,
}

/// The text of a download error.
pub open spec fn download_error_text(e: DownloadError) -> Seq<char> {
    match e {
        DownloadError::InvalidMessage => "Invalid message type"@,
        DownloadError::HashMismatch => "Hashes are not equal"@,
    }
}

impl DownloadError {
    /// The error's text, as [`download_error_text`] states.
    pub fn to_string(&self) -> (res: String)
        ensures
            res@ == download_error_text(*self),
    {
        match self {
            DownloadError::InvalidMessage => String::from_str("Invalid message type"),
            DownloadError::HashMismatch => String::from_str("Hashes are not equal"),
        }
    }
}

/// The download of one piece from a peer. The caller reads the peer's
/// messages and hands each to [`PieceDownload::step`], which says what to do
/// next.
pub struct PieceDownload {
    pub piece_index: u32,
    pub piece_length: u32,
    /// The torrent's hash list.
    pub piece_hashes: Vec<u8>,
    /// The length of the block requested last.
    pub length: u32,
    /// The offset of the next block.
    pub total_length: u32,
    /// How many blocks have been requested.
    pub index: u32,
    pub last_block_length: u32,
    pub last_block_index: u32,
    /// The data received so far.
    pub piece_vector: Vec<u8>,
    pub stage: DownloadStage,
}

/// The model of a [`PieceDownload`].
pub struct DownloadView {
    pub piece_index: u32,
    pub piece_length: u32,
    pub piece_hashes: Seq<u8>,
    pub length: u32,
    pub total_length: u32,
    pub index: u32,
    pub last_block_length: u32,
    pub last_block_index: u32,
    pub piece_vector: Seq<u8>,
    pub stage: DownloadStage,
}

impl View for PieceDownload {
    type V = DownloadView;

    open spec fn view(&self) -> DownloadView {
        DownloadView {
            piece_index: self.piece_index,
            piece_length: self.piece_length,
            piece_hashes: self.piece_hashes@,
            length: self.length,
            total_length: self.total_length,
            index: self.index,
            last_block_length: self.last_block_length,
            last_block_index: self.last_block_index,
            piece_vector: self.piece_vector@,
            stage: self.stage,
        }
    }
}

/// What to do after a step of a download.
#[derive(Debug)]
pub enum DownloadAction {
    /// Send these bytes to the peer, then read its next message.
    Send(Vec<u8>),
    /// The piece is complete and has the listed hash: these are its bytes.
    Complete(Vec<u8>),
    /// The download failed.
    Fail(DownloadError),
}

/// The model of a [`DownloadAction`].
pub enum ActionView {
    Send(Seq<u8>),
    Complete(Seq<u8>),
    Fail(DownloadError),
}

impl View for DownloadAction {
    type V = ActionView;

    open spec fn view(&self) -> ActionView {
        match self {
            DownloadAction::Send(b) => ActionView::Send(b@),
            DownloadAction::Complete(b) => ActionView::Complete(b@),
            DownloadAction::Fail(e) => ActionView::Fail(*e),
        }
    }
}

/// The payload of a request: piece index, offset and length, each big-endian.
pub open spec fn request_payload(piece_index: u32, begin: u32, length: u32) -> Seq<u8> {
    be_bytes(piece_index) + be_bytes(begin) + be_bytes(length)
}

/// The bytes of a request for `length` bytes at `begin` of a piece.
pub open spec fn request_message(piece_index: u32, begin: u32, length: u32) -> Seq<u8> {
    serialized(MessageView {
        length: 17,
        message_type: ProtocolMessageType::Request,
        payload: request_payload(piece_index, begin, length),
    })
}

/// The bytes of the `interested` message that this client sends.
pub open spec fn interested_message() -> Seq<u8> {
    serialized(MessageView { length: 6, message_type: ProtocolMessageType::Interested, payload: seq![0u8] })
}

/// The end of a download: complete when the data has the listed hash.
pub open spec fn finish(s: DownloadView) -> (DownloadView, ActionView) {
    (DownloadView { stage: DownloadStage::Finished, ..s }, if piece_verified(s.piece_hashes, s.piece_index as int, s.piece_vector) {
        ActionView::Complete(s.piece_vector)
    } else {
        ActionView::Fail(DownloadError::HashMismatch)
    })
}

/// The head of the request loop: while the next offset is within the piece,
/// request the next block (the block numbered `last_block_index` with length
/// `last_block_length`), else end. Block `last_block_index` always starts
/// past the piece's end, so that shorter length is never requested: every
/// request asks for a whole block (see
/// [`lemma_download_requests_whole_blocks`]), the last one possibly reaching
/// past the piece's end.
pub open spec fn next_request(s: DownloadView) -> (DownloadView, ActionView) {
    if s.piece_length >= s.total_length {
        let len = if s.index == s.last_block_index { s.last_block_length } else { s.length };
        (DownloadView { length: len, stage: DownloadStage::AwaitBlock, ..s },
            ActionView::Send(request_message(s.piece_index, s.total_length, len)))
    } else {
        finish(s)
    }
}

/// What a download does with the next message `event` from the peer. The
/// answer to the first request is read but its data is not kept; only the
/// payloads of later answers make up the piece. A finished download answers
/// every further message with a failure and stays finished.
pub open spec fn download_step(s: DownloadView, event: Seq<u8>) -> (DownloadView, ActionView) {
    let failed = (DownloadView { stage: DownloadStage::Finished, ..s }, ActionView::Fail(DownloadError::InvalidMessage));
    match s.stage {
        DownloadStage::AwaitBitfield => match deserialized(event) {
            Ok(_) => (DownloadView { stage: DownloadStage::AwaitUnchoke, ..s }, ActionView::Send(interested_message())),
            Err(_) => failed,
        },
        DownloadStage::AwaitUnchoke => match deserialized(event) {
            Ok(_) => (DownloadView {
                length: BLOCK_LENGTH,
                total_length: 0,
                index: 0,
                last_block_length: s.piece_length % BLOCK_LENGTH,
                last_block_index: (s.piece_length / BLOCK_LENGTH + 1) as u32,
                stage: DownloadStage::AwaitFirstBlock,
                ..s
            }, ActionView::Send(request_message(s.piece_index, 0, BLOCK_LENGTH))),
            Err(_) => failed,
        },
        DownloadStage::AwaitFirstBlock => next_request(DownloadView {
            index: (s.index + 1) as u32,
            total_length: (s.total_length + s.length) as u32,
            ..s
        }),
        DownloadStage::AwaitBlock => if event.len() == 0 {
            finish(s)
        } else {
            match deserialized(event) {
                Ok(m) => next_request(DownloadView {
                    piece_vector: s.piece_vector + m.payload,
                    index: (s.index + 1) as u32,
                    total_length: (s.total_length + s.length) as u32,
                    ..s
                }),
                Err(_) => failed,
            }
        },
        DownloadStage::Finished => (s, ActionView::Fail(DownloadError::InvalidMessage)),
    }
}

/// What a download's state keeps: the piece is short enough that offsets
/// cannot overflow, and, once requests have started, every block requested
/// is a whole block at a multiple of the block length within the piece.
pub open spec fn download_wf(s: DownloadView) -> bool {
    &&& s.piece_length <= u32::MAX - BLOCK_LENGTH
    &&& (s.stage is AwaitFirstBlock || s.stage is AwaitBlock) ==> {
        &&& s.length == BLOCK_LENGTH
        &&& s.last_block_length == s.piece_length % BLOCK_LENGTH
        &&& s.last_block_index == s.piece_length / BLOCK_LENGTH + 1
    }
    &&& s.stage is AwaitFirstBlock ==> s.total_length == 0 && s.index == 0
    &&& s.stage is AwaitBlock ==> s.total_length == s.index * BLOCK_LENGTH && s.total_length <= s.piece_length
}

impl PieceDownload {
    /// Starts the download of piece `piece_index`, `piece_length` bytes long,
    /// of a torrent with hash list `piece_hashes`; it first waits for the
    /// peer's bitfield.
    pub fn new(piece_index: u32, piece_length: u32, piece_hashes: Vec<u8>) -> (res: PieceDownload)
        requires
            piece_length <= u32::MAX - BLOCK_LENGTH,
        ensures
            download_wf(res@),
            res@ == (DownloadView {
                piece_index,
                piece_length,
                piece_hashes: piece_hashes@,
                length: 0,
                total_length: 0,
                index: 0,
                last_block_length: 0,
                last_block_index: 0,
                piece_vector: Seq::empty(),
                stage: DownloadStage::AwaitBitfield,
            }),
    {
        PieceDownload {
            piece_index,
            piece_length,
            piece_hashes,
            length: 0,
            total_length: 0,
            index: 0,
            last_block_length: 0,
            last_block_index: 0,
            piece_vector: Vec::new(),
            stage: DownloadStage::AwaitBitfield,
        }
    }

    /// Ends the download, as [`finish`] states.
    fn finish(&mut self) -> (res: DownloadAction)
        ensures
            (final(self)@, res@) == finish(old(self)@),
    {
        self.stage = DownloadStage::Finished;
        if piece_hash_matches(&self.piece_hashes, self.piece_index, &self.piece_vector) {
            let data = self.piece_vector.clone();
            assert(data@ =~= self.piece_vector@);
            DownloadAction::Complete(data)
        } else {
            DownloadAction::Fail(DownloadError::HashMismatch)
        }
    }

    /// The head of the request loop, as [`next_request`] states.
    fn next_request(&mut self) -> (res: DownloadAction)
        ensures
            (final(self)@, res@) == next_request(old(self)@),
    {
        if self.piece_length >= self.total_length {
            if self.index == self.last_block_index {
                self.length = self.last_block_length;
            }
            self.stage = DownloadStage::AwaitBlock;
            let mut payload: Vec<u8> = Vec::new();
            push_be_u32(&mut payload, self.piece_index);
            push_be_u32(&mut payload, self.total_length);
            push_be_u32(&mut payload, self.length);
            assert(payload@ =~= request_payload(self.piece_index, self.total_length, self.length));
            let request = ProtocolMessage {
                length: 4 + 1 + 12,
                message_type: ProtocolMessageType::Request,
                payload,
            };
            DownloadAction::Send(request.serialize())
        } else {
            self.finish()
        }
    }

    /// Takes the next message from the peer (the bytes after its length
    /// prefix) and says what to do, as [`download_step`] states.
    pub fn step(&mut self, event: &Vec<u8>) -> (res: DownloadAction)
        requires
            download_wf(old(self)@),
            old(self).stage == DownloadStage::AwaitBitfield || old(self).stage == DownloadStage::AwaitUnchoke
                ==> event@.len() >= 1,
            old(self).stage != DownloadStage::AwaitFirstBlock ==> (event@.len() as u32) + 4 <= u32::MAX,
        ensures
            download_wf(final(self)@),
            (final(self)@, res@) == download_step(old(self)@, event@),
    {
        match self.stage {
            DownloadStage::AwaitBitfield => {
                match ProtocolMessage::deserialize(event) {
                    Ok(_) => {
                        self.stage = DownloadStage::AwaitUnchoke;
                        let interested = ProtocolMessage {
                            length: 4 + 1 + 1,
                            message_type: ProtocolMessageType::Interested,
                            payload: vec![0x00],
                        };
                        assert(interested.payload@ =~= seq![0u8]);
                        DownloadAction::Send(interested.serialize())
                    },
                    Err(_) => {
                        self.stage = DownloadStage::Finished;
                        DownloadAction::Fail(DownloadError::InvalidMessage)
                    },
                }
            },
            DownloadStage::AwaitUnchoke => {
                match ProtocolMessage::deserialize(event) {
                    Ok(_) => {
                        self.length = BLOCK_LENGTH;
                        self.total_length = 0;
                        self.index = 0;
                        self.last_block_length = self.piece_length % BLOCK_LENGTH;
                        self.last_block_index = self.piece_length / BLOCK_LENGTH + 1;
                        self.stage = DownloadStage::AwaitFirstBlock;
                        let mut payload: Vec<u8> = Vec::new();
                        push_be_u32(&mut payload, self.piece_index);
                        push_be_u32(&mut payload, self.total_length);
                        push_be_u32(&mut payload, self.length);
                        assert(payload@ =~= request_payload(self.piece_index, 0, BLOCK_LENGTH));
                        let request = ProtocolMessage {
                            length: 4 + 1 + 12,
                            message_type: ProtocolMessageType::Request,
                            payload,
                        };
                        DownloadAction::Send(request.serialize())
                    },
                    Err(_) => {
                        self.stage = DownloadStage::Finished;
                        DownloadAction::Fail(DownloadError::InvalidMessage)
                    },
                }
            },
            DownloadStage::AwaitFirstBlock => {
                self.index = self.index + 1;
                self.total_length = self.total_length + self.length;
                self.next_request()
            },
            DownloadStage::AwaitBlock => {
                if event.len() == 0 {
                    return self.finish();
                }
                match ProtocolMessage::deserialize(event) {
                    Ok(response) => {
                        extend_bytes(&mut self.piece_vector, response.payload.as_slice());
                        self.index = self.index + 1;
                        self.total_length = self.total_length + self.length;
                        self.next_request()
                    },
                    Err(_) => {
                        self.stage = DownloadStage::Finished;
                        DownloadAction::Fail(DownloadError::InvalidMessage)
                    },
                }
            },
            DownloadStage::Finished => DownloadAction::Fail(DownloadError::InvalidMessage),
        }
    }
}


/// Once requests have started, every message a download sends is a request
/// for one whole block of the piece, at an offset that is a multiple of the
/// block length and lies within the piece; the offset it records as next is
/// that block's.
pub proof fn lemma_download_requests_whole_blocks(s: DownloadView, event: Seq<u8>)
    requires
        download_wf(s),
        s.stage is AwaitFirstBlock || s.stage is AwaitBlock,
    ensures
        ({
            let (s2, a) = download_step(s, event);
            a matches ActionView::Send(b) ==> {
                &&& b == request_message(s.piece_index, s2.total_length, BLOCK_LENGTH)
                &&& s2.total_length % BLOCK_LENGTH == 0
                &&& s2.total_length <= s.piece_length
            }
        }),
{
    let pl = s.piece_length as int;
    let b = BLOCK_LENGTH as int;
    let next: int = s.index + 1;
    assert(next * b == s.total_length + b) by (nonlinear_arith)
        requires
            s.stage is AwaitBlock ==> s.total_length == s.index * b,
            s.stage is AwaitFirstBlock ==> s.total_length == 0 && s.index == 0,
            s.stage is AwaitFirstBlock || s.stage is AwaitBlock,
            next == s.index + 1,
            b == 16384;
    assert(next * b <= pl ==> next != pl / b + 1) by (nonlinear_arith)
        requires b == 16384;
    assert((next * b) % b == 0) by (nonlinear_arith)
        requires b == 16384;
}

/// A download hands back data as complete only when the data has the hash
/// that the torrent lists for the piece; the data is all that it received.
pub proof fn lemma_download_completes_only_verified(s: DownloadView, event: Seq<u8>)
    ensures
        ({
            let (s2, a) = download_step(s, event);
            a matches ActionView::Complete(d) ==> {
                &&& piece_verified(s.piece_hashes, s.piece_index as int, d)
                &&& d == s2.piece_vector
                &&& s2.stage is Finished
            }
        }),
{
}

/// A step of a download never changes which piece of which torrent it
/// fetches, and only ever adds data at the end of what it has received.
pub proof fn lemma_download_keeps_piece(s: DownloadView, event: Seq<u8>)
    ensures
        ({
            let s2 = download_step(s, event).0;
            &&& s2.piece_index == s.piece_index
            &&& s2.piece_length == s.piece_length
            &&& s2.piece_hashes == s.piece_hashes
            &&& s2.piece_vector.take(s.piece_vector.len() as int) == s.piece_vector
        }),
{
    let s2 = download_step(s, event).0;
    assert(s2.piece_vector.take(s.piece_vector.len() as int) =~= s.piece_vector);
}

} // verus!
