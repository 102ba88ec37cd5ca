# bittorrent

A small BitTorrent client whose core is verified with Verus.

- `src/` is the library. Its functions are verified, except the few trusted
  wrappers listed at the end of this file:
  - `tokens`: the bencode token stream that the `bendy` tokenizer yields;
  - `bencode`: building `BencodeValue`s from that stream (`decode_bn`);
  - `render`: the JSON-like text of a decoded value;
  - `metainfo`: reading a torrent file (`decode_torrent`);
  - `info_hash`: finding the `info` dictionary's bytes in a torrent file and
    their SHA-1 digest;
  - `tracker`, `tracker_bencode`: the tracker request URL and the two
    readers of a tracker's response (`serde_bencode` and `bendy`), the peer
    list, and their display text;
  - `handshake`: the handshake message and hexadecimal peer ids;
  - `protocol_message`: peer wire messages and the piece download, a state
    machine that decides what to send and checks the piece's SHA-1 hash;
  - `number`, `text`, `bytes`: decimal integers, text building, byte
    comparison.
- `app/main.rs` is the command-line program: file, network and terminal I/O
  around the library (`decode`, `info`, `peers`, `handshake`,
  `download_piece`).
- `tests/` exercises the library on concrete inputs.

Calls into `bendy`, `serde_bencode`, `sha1`, `urlencoding` and two std string
functions stand behind trusted wrappers, marked `#[verifier::external_body]`:
Verus believes their contracts and does not check their bodies. They are
`tokenize` (`tokens`), `bencode_dict_entries` and `encode_binary`
(`tracker`), `sha1_digest` (`protocol_message`, also used by `info_hash`),
and `string_from_utf8` and `push_char` (`text`). Their contracts name or state what those calls return.
