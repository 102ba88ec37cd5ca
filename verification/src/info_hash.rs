//! The info hash: the SHA-1 digest of a torrent's `info` dictionary, taken
//! over the dictionary's bytes as they stand in the file.
//!
//! Spans are found by the shape of bencode alone: a byte string is a decimal
//! length, `:` and that many bytes; an integer is `i`, an optional `-`,
//! digits and `e`; lists and dictionaries hold items up to `e`. Rules on the
//! canonical form (no leading zeros, sorted keys) are not checked here.
use vstd::prelude::*;
use vstd::slice::slice_subrange;

use crate::number::{digits_value, is_digit};
use crate::protocol_message::{sha1_digest, sha1_of};

verus! {

/// The position after the run of ASCII digits that starts at `p`.
pub open spec fn digits_end(b: Seq<u8>, p: int) -> int
    decreases b.len() - p,
{
    if 0 <= p < b.len() && is_digit(b[p]) {
        digits_end(b, p + 1)
    } else {
        p
    }
}

/// The position after the byte string that starts at `p`; `None` where no
/// byte string stands there within the bytes.
pub open spec fn string_end(b: Seq<u8>, p: int) -> Option<int> {
    let q = digits_end(b, p);
    if 0 <= p && p < q && q < b.len() && b[q] == 58u8 {
        let e = q + 1 + digits_value(b.subrange(p, q));
        if e <= b.len() {
            Some(e)
        } else {
            None
        }
    } else {
        None
    }
}

/// The position after the integer that starts at `p`; `None` where no
/// integer stands there.
pub open spec fn int_end(b: Seq<u8>, p: int) -> Option<int> {
    if 0 <= p && p + 1 < b.len() && b[p] == 105u8 {
        let s = if b[p + 1] == 45u8 { p + 2 } else { p + 1 };
        let q = digits_end(b, s);
        if s < q && q < b.len() && b[q] == 101u8 {
            Some(q + 1)
        } else {
            None
        }
    } else {
        None
    }
}

/// The position after the value that starts at `p`; `None` where no value
/// stands there.
pub open spec fn value_end(b: Seq<u8>, p: int) -> Option<int>
    decreases b.len() - p, 0int,
{
    if 0 <= p < b.len() {
        if b[p] == 105u8 {
            int_end(b, p)
        } else if b[p] == 108u8 {
            items_end(b, p + 1, false)
        } else if b[p] == 100u8 {
            items_end(b, p + 1, true)
        } else {
            string_end(b, p)
        }
    } else {
        None
    }
}

/// The position after the items of a list (or, with `dict`, the key and
/// value pairs of a dictionary) that start at `p`, closing `e` included.
pub open spec fn items_end(b: Seq<u8>, p: int, dict: bool) -> Option<int>
    decreases b.len() - p, 1int,
{
    if 0 <= p < b.len() {
        if b[p] == 101u8 {
            Some(p + 1)
        } else if dict {
            match string_end(b, p) {
                Some(k) => if p < k < b.len() {
                    match value_end(b, k) {
                        Some(v) => if k < v <= b.len() {
                            items_end(b, v, dict)
                        } else {
                            None
                        },
                        None => None,
                    }
                } else {
                    None
                },
                None => None,
            }
        } else {
            match value_end(b, p) {
                Some(v) => if p < v <= b.len() {
                    items_end(b, v, dict)
                } else {
                    None
                },
                None => None,
            }
        }
    } else {
        None
    }
}

/// The byte string that runs from `p` to `k` holds the word `info`.
pub open spec fn key_is_info(b: Seq<u8>, p: int, k: int) -> bool {
    &&& k >= 5
    &&& digits_end(b, p) == k - 5
    &&& b[k - 4] == 105u8
    &&& b[k - 3] == 110u8
    &&& b[k - 2] == 102u8
    &&& b[k - 1] == 111u8
}

/// The start and end of the value under the first key `info` among the
/// dictionary entries that start at `p`; `None` where the entries end, or
/// stop being well formed, before such a key.
pub open spec fn info_entry(b: Seq<u8>, p: int) -> Option<(int, int)>
    decreases b.len() - p,
{
    if 0 <= p < b.len() && b[p] != 101u8 {
        match string_end(b, p) {
            Some(k) => if p < k < b.len() {
                match value_end(b, k) {
                    Some(v) => if k < v <= b.len() {
                        if key_is_info(b, p, k) {
                            Some((k, v))
                        } else {
                            info_entry(b, v)
                        }
                    } else {
                        None
                    },
                    None => None,
                }
            } else {
                None
            },
            None => None,
        }
    } else {
        None
    }
}

/// Where a torrent's `info` dictionary stands in the file: the value under
/// the first key `info` of the dictionary that the bytes start with, when
/// that value is a dictionary.
pub open spec fn info_span(b: Seq<u8>) -> Option<(int, int)> {
    if b.len() > 0 && b[0] == 100u8 {
        match info_entry(b, 1) {
            Some((s, e)) => if b[s] == 100u8 {
                Some((s, e))
            } else {
                None
            },
            None => None,
        }
    } else {
        None
    }
}

/// The span an optional pair of `usize`s stands for.
pub open spec fn as_span(o: Option<(usize, usize)>) -> Option<(int, int)> {
    match o {
        Some((s, e)) => Some((s as int, e as int)),
        None => None,
    }
}

/// The position an optional `usize` stands for.
pub open spec fn as_pos(o: Option<usize>) -> Option<int> {
    match o {
        Some(x) => Some(x as int),
        None => None,
    }
}

/// Finds the end of the run of digits that starts at `p`.
fn scan_digits(b: &[u8], p: usize) -> (q: usize)
    requires
        p <= b@.len(),
    ensures
        q == digits_end(b@, p as int),
        p <= q <= b@.len(),
        forall|i: int| p <= i < q ==> is_digit(#[trigger] b@[i]),
{
    let mut q = p;
    while q < b.len() && 48 <= b[q] && b[q] <= 57
        invariant
            p <= q <= b@.len(),
            digits_end(b@, p as int) == digits_end(b@, q as int),
            forall|i: int| p <= i < q ==> is_digit(#[trigger] b@[i]),
        decreases b@.len() - q,
    {
        q = q + 1;
    }
    q
}

/// A number spelled by digits is at least the number its first digits spell.
proof fn lemma_digits_value_prefix(d: Seq<u8>, j: int)
    requires
        0 <= j <= d.len(),
    ensures
        digits_value(d.subrange(0, j)) <= digits_value(d),
    decreases d.len(),
{
    if j == d.len() {
        assert(d.subrange(0, j) =~= d);
    } else {
        let init = d.drop_last();
        lemma_digits_value_prefix(init, j);
        assert(init.subrange(0, j) =~= d.subrange(0, j));
    }
}

/// The number that the digits from `p` to `q` spell, where it is at most
/// `bound`; `None` where it is larger.
fn bounded_value(b: &[u8], p: usize, q: usize, bound: usize) -> (res: Option<usize>)
    requires
        p <= q <= b@.len(),
        forall|i: int| p <= i < q ==> is_digit(#[trigger] b@[i]),
    ensures
        match res {
            Some(v) => v == digits_value(b@.subrange(p as int, q as int)) && v <= bound,
            None => digits_value(b@.subrange(p as int, q as int)) > bound,
        },
{
    let mut v: usize = 0;
    let mut j = p;
    assert(b@.subrange(p as int, p as int) =~= Seq::<u8>::empty());
    while j < q
        invariant
            p <= j <= q <= b@.len(),
            forall|i: int| p <= i < q ==> is_digit(#[trigger] b@[i]),
            v == digits_value(b@.subrange(p as int, j as int)),
            v <= bound,
        decreases q - j,
    {
        let ghost next = b@.subrange(p as int, j + 1);
        assert(next.drop_last() =~= b@.subrange(p as int, j as int));
        assert(next.last() == b@[j as int]);
        assert(is_digit(b@[j as int]));
        let w: u128 = (v as u128) * 10 + ((b[j] - 48) as u128);
        assert(w == digits_value(next));
        if w > bound as u128 {
            proof {
                let d = b@.subrange(p as int, q as int);
                lemma_digits_value_prefix(d, j + 1 - p);
                assert(d.subrange(0, j + 1 - p) =~= next);
            }
            return None;
        }
        v = w as usize;
        j = j + 1;
    }
    Some(v)
}

/// Finds the end of the byte string that starts at `p`.
fn scan_string(b: &[u8], p: usize) -> (res: Option<usize>)
    ensures
        as_pos(res) == string_end(b@, p as int),
{
    if p >= b.len() {
        return None;
    }
    let q = scan_digits(b, p);
    if p < q && q < b.len() && b[q] == 58 {
        let bound = b.len() - q - 1;
        match bounded_value(b, p, q, bound) {
            Some(n) => Some(q + 1 + n),
            None => None,
        }
    } else {
        None
    }
}

/// Finds the end of the integer that starts at `p`.
fn scan_int(b: &[u8], p: usize) -> (res: Option<usize>)
    ensures
        as_pos(res) == int_end(b@, p as int),
{
    if p < b.len() && p + 1 < b.len() && b[p] == 105 {
        let s = if b[p + 1] == 45 { p + 2 } else { p + 1 };
        let q = scan_digits(b, s);
        if s < q && q < b.len() && b[q] == 101 {
            Some(q + 1)
        } else {
            None
        }
    } else {
        None
    }
}

/// Finds the end of the value that starts at `p`.
fn scan_value(b: &[u8], p: usize) -> (res: Option<usize>)
    ensures
        as_pos(res) == value_end(b@, p as int),
    decreases b@.len() - p, 0int,
{
    if p >= b.len() {
        return None;
    }
    if b[p] == 105 {
        scan_int(b, p)
    } else if b[p] == 108 {
        scan_items(b, p + 1, false)
    } else if b[p] == 100 {
        scan_items(b, p + 1, true)
    } else {
        scan_string(b, p)
    }
}

/// Finds the end of the items of a list or dictionary that start at `p`.
fn scan_items(b: &[u8], p: usize, dict: bool) -> (res: Option<usize>)
    requires
        p <= b@.len(),
    ensures
        as_pos(res) == items_end(b@, p as int, dict),
    decreases b@.len() - p, 1int,
{
    let mut j = p;
    loop
        invariant
            p <= j <= b@.len(),
            items_end(b@, p as int, dict) == items_end(b@, j as int, dict),
        decreases b@.len() - j,
    {
        if j >= b.len() {
            return None;
        }
        if b[j] == 101 {
            return Some(j + 1);
        }
        let mut start = j;
        if dict {
            match scan_string(b, j) {
                Some(k) => {
                    if !(j < k && k < b.len()) {
                        return None;
                    }
                    start = k;
                },
                None => {
                    return None;
                },
            }
        }
        match scan_value(b, start) {
            Some(v) => {
                if !(start < v && v <= b.len()) {
                    return None;
                }
                j = v;
            },
            None => {
                return None;
            },
        }
    }
}

/// Finds the value under the first key `info` among the dictionary entries
/// that start at `p`.
fn scan_info_entry(b: &[u8], p: usize) -> (res: Option<(usize, usize)>)
    requires
        p <= b@.len(),
    ensures
        as_span(res) == info_entry(b@, p as int),
        res matches Some((s, e)) ==> s < e <= b@.len(),
{
    let mut j = p;
    loop
        invariant
            p <= j <= b@.len(),
            info_entry(b@, p as int) == info_entry(b@, j as int),
        decreases b@.len() - j,
    {
        if j >= b.len() || b[j] == 101 {
            return None;
        }
        let k = match scan_string(b, j) {
            Some(k) => k,
            None => {
                return None;
            },
        };
        if !(j < k && k < b.len()) {
            return None;
        }
        let v = match scan_value(b, k) {
            Some(v) => v,
            None => {
                return None;
            },
        };
        if !(k < v && v <= b.len()) {
            return None;
        }
        let q = scan_digits(b, j);
        if k >= 5 && q == k - 5 && b[k - 4] == 105 && b[k - 3] == 110 && b[k - 2] == 102 && b[k - 1] == 111 {
            return Some((k, v));
        }
        j = v;
    }
}

/// Finds where a torrent's `info` dictionary stands, as [`info_span`]
/// states.
pub fn find_info_span(torrent: &[u8]) -> (res: Option<(usize, usize)>)
    ensures
        as_span(res) == info_span(torrent@),
        res matches Some((s, e)) ==> s < e <= torrent@.len(),
{
    if torrent.len() == 0 || torrent[0] != 100 {
        return None;
    }
    match scan_info_entry(torrent, 1) {
        Some((s, e)) => {
            if torrent[s] != 100 {
                return None;
            }
            Some((s, e))
        },
        None => None,
    }
}

/// The info hash of a torrent file: the SHA-1 digest of its `info`
/// dictionary's bytes as they stand in the file ([`info_span`]); `None`
/// where the file holds no such dictionary.
pub fn info_hash(torrent: &[u8]) -> (res: Option<Vec<u8>>)
    ensures
        match info_span(torrent@) {
            Some((s, e)) => res matches Some(h) && h@ == sha1_of(torrent@.subrange(s, e)) && h@.len() == 20,
            None => res is None,
        },
{
    match find_info_span(torrent) {
        Some((s, e)) => {
            let raw = slice_subrange(torrent, s, e);
            Some(sha1_digest(raw))
        },
        None => None,
    }
}

/// Where the info span is found, a whole dictionary stands there: the span
/// starts with `d` inside the file, and the value that starts there ends
/// where the span ends.
pub proof fn lemma_info_span_is_dictionary(b: Seq<u8>)
    requires
        info_span(b) is Some,
    ensures
        ({
            let (s, e) = info_span(b)->Some_0;
            &&& 0 < s < e <= b.len()
            &&& b[s] == 100u8
            &&& value_end(b, s) == Some(e)
        }),
{
    lemma_info_entry_is_value(b, 1);
}

/// What [`info_entry`] finds is a value that ends where the span ends.
proof fn lemma_info_entry_is_value(b: Seq<u8>, p: int)
    requires
        info_entry(b, p) is Some,
    ensures
        ({
            let (s, e) = info_entry(b, p)->Some_0;
            &&& p < s < e <= b.len()
            &&& value_end(b, s) == Some(e)
        }),
    decreases b.len() - p,
{
    let k = string_end(b, p)->Some_0;
    let v = value_end(b, k)->Some_0;
    if !key_is_info(b, p, k) {
        lemma_info_entry_is_value(b, v);
    }
}

/// A value ends after it starts and never past the end of the bytes.
pub proof fn lemma_value_end_within(b: Seq<u8>, p: int)
    ensures
        value_end(b, p) matches Some(v) ==> p < v <= b.len(),
    decreases b.len() - p, 0int,
{
    if 0 <= p < b.len() {
        if b[p] == 108u8 {
            lemma_items_end_within(b, p + 1, false);
        } else if b[p] == 100u8 {
            lemma_items_end_within(b, p + 1, true);
        }
    }
}

/// The items of a list or dictionary end after they start and never past
/// the end of the bytes.
pub proof fn lemma_items_end_within(b: Seq<u8>, p: int, dict: bool)
    ensures
        items_end(b, p, dict) matches Some(v) ==> p < v <= b.len(),
    decreases b.len() - p, 1int,
{
    if 0 <= p < b.len() && b[p] != 101u8 {
        if dict {
            if let Some(k) = string_end(b, p) {
                if p < k < b.len() {
                    if let Some(v) = value_end(b, k) {
                        if k < v <= b.len() {
                            lemma_items_end_within(b, v, dict);
                        }
                    }
                }
            }
        } else {
            if let Some(v) = value_end(b, p) {
                if p < v <= b.len() {
                    lemma_items_end_within(b, v, dict);
                }
            }
        }
    }
}

/// Every item of a list is skipped by the value grammar, whatever its kind:
/// where a value starts at `p` and ends at `v`, the list's items from `p`
/// end where its items from `v` end. Likewise a dictionary entry is skipped
/// as a byte-string key followed by a value.
pub proof fn lemma_items_skip_values(b: Seq<u8>, p: int, k: int, v: int)
    requires
        0 <= p < b.len(),
        b[p] != 101u8,
    ensures
        value_end(b, p) == Some(v) ==> items_end(b, p, false) == items_end(b, v, false),
        string_end(b, p) == Some(k) && value_end(b, k) == Some(v) ==> items_end(b, p, true) == items_end(
            b,
            v,
            true,
        ),
{
    lemma_value_end_within(b, p);
    lemma_value_end_within(b, k);
    if string_end(b, p) == Some(k) {
        assert(p < k <= b.len());
        assert(digits_end(b, p) < b.len());
    }
}

/// A dictionary whose entries are byte-string keys and well-formed values is
/// scanned entry by entry: where its first entry's key is not `info`, the
/// search goes on after that entry's value.
pub proof fn lemma_info_entry_skips_entry(b: Seq<u8>, p: int, k: int, v: int)
    requires
        0 <= p < b.len(),
        b[p] != 101u8,
        string_end(b, p) == Some(k),
        value_end(b, k) == Some(v),
    ensures
        key_is_info(b, p, k) ==> info_entry(b, p) == Some((k, v)),
        !key_is_info(b, p, k) ==> info_entry(b, p) == info_entry(b, v),
{
    lemma_value_end_within(b, k);
    assert(digits_end(b, p) < b.len());
}

} // verus!
