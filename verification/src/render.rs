//! Writing a decoded bencode value as JSON-like text.
use vstd::prelude::*;
use vstd::string::*;
use vstd::utf8::*;

use crate::bencode::{bvalue_of, dict_view, lemma_dict_view_index, lemma_list_view_index, list_view, BValue, BencodeValue};
use crate::text::{push_char, push_i64, signed_decimal, string_from_utf8};

verus! {

/// The text of a value inside a list or dictionary: an integer in decimal, a
/// byte string as its UTF-8 text in quotes, a list as `[` its items `]`, a
/// dictionary as `{` its entries `}`, items and entries separated by commas.
/// `None` when a byte string is not UTF-8.
pub open spec fn value_text(v: BValue) -> Option<Seq<char>>
    decreases v, 0nat,
{
    match v {
        BValue::Int(i) => Some(signed_decimal(i as int)),
        BValue::Bytes(b) => if valid_utf8(b) {
            Some(seq!['"'] + decode_utf8(b) + seq!['"'])
        } else {
            None
        },
        BValue::List(items) => match items_text(items, items.len()) {
            Some(t) => Some(seq!['['] + t + seq![']']),
            None => None,
        },
        BValue::Dict(entries) => match entries_text(entries, entries.len()) {
            Some(t) => Some(seq!['{'] + t + seq!['}']),
            None => None,
        },
    }
}

/// The comma that follows the `k`-th of `len` items, none after the last.
pub open spec fn separator(k: int, len: int) -> Seq<char> {
    if k == len - 1 {
        Seq::empty()
    } else {
        seq![',']
    }
}

/// The text of the first `n` items of a list, each followed by its separator.
pub open spec fn items_text(items: Seq<BValue>, n: nat) -> Option<Seq<char>>
    decreases items, n,
{
    if n == 0 || n > items.len() {
        if n == 0 { Some(Seq::empty()) } else { None }
    } else {
        match (items_text(items, (n - 1) as nat), value_text(items[n - 1])) {
            (Some(a), Some(b)) => Some(a + b + separator(n - 1, items.len() as int)),
            _ => None,
        }
    }
}

/// The text of the first `n` entries of a dictionary: `"key":` and the
/// value's text, each followed by its separator.
pub open spec fn entries_text(entries: Seq<(Seq<char>, BValue)>, n: nat) -> Option<Seq<char>>
    decreases entries, n,
{
    if n == 0 || n > entries.len() {
        if n == 0 { Some(Seq::empty()) } else { None }
    } else {
        match (entries_text(entries, (n - 1) as nat), value_text(entries[n - 1].1)) {
            (Some(a), Some(b)) => Some(a + seq!['"'] + entries[n - 1].0 + seq!['"', ':'] + b + separator(n - 1, entries.len() as int)),
            _ => None,
        }
    }
}

/// What printing a decoded value writes: its text and a line break.
pub open spec fn printed_text(v: BValue) -> Option<Seq<char>> {
    match value_text(v) {
        Some(t) => Some(t + seq!['\n']),
        None => None,
    }
}

proof fn lemma_items_text_none(items: Seq<BValue>, m: nat, n: nat)
    requires
        m <= n <= items.len(),
        items_text(items, m) is None,
    ensures
        items_text(items, n) is None,
    decreases n - m,
{
    if m < n {
        lemma_items_text_none(items, m, (n - 1) as nat);
    }
}

proof fn lemma_entries_text_none(entries: Seq<(Seq<char>, BValue)>, m: nat, n: nat)
    requires
        m <= n <= entries.len(),
        entries_text(entries, m) is None,
    ensures
        entries_text(entries, n) is None,
    decreases n - m,
{
    if m < n {
        lemma_entries_text_none(entries, m, (n - 1) as nat);
    }
}

/// Appends the text of `v`, as [`value_text`] states; `false` (with the
/// text cut short) when a byte string is not UTF-8.
fn push_value_text(out: &mut String, v: &BencodeValue) -> (ok: bool)
    ensures
        ok == (value_text(v@) is Some),
        ok ==> final(out)@ == old(out)@ + value_text(v@).unwrap(),
    decreases v,
{
    match v {
        BencodeValue::Int(i) => {
            push_i64(out, *i);
            true
        },
        BencodeValue::Bytes(b) => {
            let c = b.clone();
            assert(c@ =~= b@);
            match string_from_utf8(c) {
                Some(s) => {
                    push_char(out, '"');
                    out.append(s.as_str());
                    push_char(out, '"');
                    assert(final(out)@ =~= old(out)@ + value_text(v@).unwrap());
                    true
                },
                None => false,
            }
        },
        BencodeValue::List(items) => {
            let ghost iv = list_view(items@);
            proof {
                lemma_list_view_index(items@);
            }
            push_char(out, '[');
            let ghost start = out@;
            let n = items.len();
            let mut i: usize = 0;
            assert(items_text(iv, 0) == Some(Seq::<char>::empty()));
            while i < n
                invariant
                    i <= n,
                    n == items@.len(),
                    iv == list_view(items@),
                    *v == BencodeValue::List(*items),
                    iv.len() == n,
                    forall|k: int| 0 <= k < n ==> #[trigger] iv[k] == bvalue_of(items@[k]),
                    items_text(iv, i as nat) is Some,
                    out@ == start + items_text(iv, i as nat).unwrap(),
                decreases n - i,
            {
                proof {
                    assert(decreases_to!(*v => *items));
                    assert(decreases_to!(*items => items@));
                    assert(decreases_to!(items@ => items@[i as int]));
                    assert(decreases_to!(*v => items@[i as int]));
                }
                let ok = push_value_text(out, &items[i]);
                if !ok {
                    proof {
                        assert(items_text(iv, (i + 1) as nat) is None);
                        lemma_items_text_none(iv, (i + 1) as nat, n as nat);
                    }
                    return false;
                }
                if i + 1 != n {
                    push_char(out, ',');
                }
                assert(out@ =~= start + items_text(iv, (i + 1) as nat).unwrap());
                i = i + 1;
            }
            push_char(out, ']');
            assert(final(out)@ =~= old(out)@ + value_text(v@).unwrap());
            true
        },
        BencodeValue::Dict(entries) => {
            let ghost ev = dict_view(entries@);
            proof {
                lemma_dict_view_index(entries@);
            }
            push_char(out, '{');
            let ghost start = out@;
            let n = entries.len();
            let mut i: usize = 0;
            assert(entries_text(ev, 0) == Some(Seq::<char>::empty()));
            while i < n
                invariant
                    i <= n,
                    n == entries@.len(),
                    ev == dict_view(entries@),
                    *v == BencodeValue::Dict(*entries),
                    ev.len() == n,
                    forall|k: int| 0 <= k < n ==> #[trigger] ev[k] == (entries@[k].0@, bvalue_of(entries@[k].1)),
                    entries_text(ev, i as nat) is Some,
                    out@ == start + entries_text(ev, i as nat).unwrap(),
                decreases n - i,
            {
                let (key, value) = &entries[i];
                proof {
                    assert(decreases_to!(*v => *entries));
                    assert(decreases_to!(*entries => entries@));
                    assert(decreases_to!(entries@ => entries@[i as int]));
                    assert(decreases_to!(entries@[i as int] => entries@[i as int].1));
                    assert(decreases_to!(*v => entries@[i as int].1));
                }
                let ghost before = out@;
                push_char(out, '"');
                out.append(key.as_str());
                push_char(out, '"');
                push_char(out, ':');
                let ghost mid = out@;
                let ok = push_value_text(out, value);
                if !ok {
                    proof {
                        assert(entries_text(ev, (i + 1) as nat) is None);
                        lemma_entries_text_none(ev, (i + 1) as nat, n as nat);
                    }
                    return false;
                }
                if i + 1 != n {
                    push_char(out, ',');
                }
                assert(out@ =~= start + entries_text(ev, (i + 1) as nat).unwrap());
                i = i + 1;
            }
            push_char(out, '}');
            assert(final(out)@ =~= old(out)@ + value_text(v@).unwrap());
            true
        },
    }
}


/// The text that printing a decoded value writes, as [`printed_text`]
/// states; `None` when one of its byte strings is not UTF-8.
pub fn render_decoded_value(decoded_value: &BencodeValue) -> (res: Option<String>)
    ensures
        match printed_text(decoded_value@) {
            Some(t) => res matches Some(s) && s@ == t,
            None => res is None,
        },
{
    let mut out = String::new();
    if push_value_text(&mut out, decoded_value) {
        push_char(&mut out, '\n');
        assert(out@ =~= printed_text(decoded_value@).unwrap());
        Some(out)
    } else {
        None
    }
}

/// What a container printer writes after its text: a line break unless the
/// value is nested inside another.
pub open spec fn line_end(is_nested: bool) -> Seq<char> {
    if is_nested {
        Seq::empty()
    } else {
        seq!['\n']
    }
}

/// What the list printer writes: for a list, its text; for any other value,
/// `unknown type`; then [`line_end`]. `None` when a byte string is not UTF-8.
pub open spec fn list_printed(v: BValue, is_nested: bool) -> Option<Seq<char>> {
    match v {
        BValue::List(_) => match value_text(v) {
            Some(t) => Some(t + line_end(is_nested)),
            None => None,
        },
        _ => Some("unknown type"@ + line_end(is_nested)),
    }
}

/// What the dictionary printer writes: for a dictionary, its text; for any
/// other value, nothing; then [`line_end`]. `None` when a byte string is not
/// UTF-8.
pub open spec fn dictionary_printed(v: BValue, is_nested: bool) -> Option<Seq<char>> {
    match v {
        BValue::Dict(_) => match value_text(v) {
            Some(t) => Some(t + line_end(is_nested)),
            None => None,
        },
        _ => Some(line_end(is_nested)),
    }
}

/// Appends [`line_end`].
fn push_line_end(out: &mut String, is_nested: bool)
    ensures
        final(out)@ == old(out)@ + line_end(is_nested),
{
    if !is_nested {
        push_char(out, '\n');
    } else {
        assert(old(out)@ + line_end(is_nested) =~= old(out)@);
    }
}

/// The text that the list printer writes for a value, as [`list_printed`]
/// states; `None` when one of its byte strings is not UTF-8.
pub fn render_list(decoded_value: &BencodeValue, is_nested: bool) -> (res: Option<String>)
    ensures
        match list_printed(decoded_value@, is_nested) {
            Some(t) => res matches Some(s) && s@ == t,
            None => res is None,
        },
{
    match decoded_value {
        BencodeValue::List(_) => {
            let mut out = String::new();
            if push_value_text(&mut out, decoded_value) {
                push_line_end(&mut out, is_nested);
                assert(out@ =~= list_printed(decoded_value@, is_nested).unwrap());
                Some(out)
            } else {
                None
            }
        },
        _ => {
            let mut out = String::from_str("unknown type");
            push_line_end(&mut out, is_nested);
            Some(out)
        },
    }
}

/// The text that the dictionary printer writes for a value, as
/// [`dictionary_printed`] states; `None` when one of its byte strings is not
/// UTF-8.
pub fn render_dictionary(decoded_value: &BencodeValue, is_nested: bool) -> (res: Option<String>)
    ensures
        match dictionary_printed(decoded_value@, is_nested) {
            Some(t) => res matches Some(s) && s@ == t,
            None => res is None,
        },
{
    match decoded_value {
        BencodeValue::Dict(_) => {
            let mut out = String::new();
            if push_value_text(&mut out, decoded_value) {
                push_line_end(&mut out, is_nested);
                assert(out@ =~= dictionary_printed(decoded_value@, is_nested).unwrap());
                Some(out)
            } else {
                None
            }
        },
        _ => {
            let mut out = String::new();
            push_line_end(&mut out, is_nested);
            assert(out@ =~= line_end(is_nested));
            Some(out)
        },
    }
}

/// Printing a whole list or dictionary writes what the list or dictionary
/// printer writes for it when it is not nested.
pub proof fn lemma_printed_text_of_containers(v: BValue)
    ensures
        v is List ==> printed_text(v) == list_printed(v, false),
        v is Dict ==> printed_text(v) == dictionary_printed(v, false),
{
}

/// The first `k` entries' text does not change when an entry is added
/// after the last one, as long as the `k` entries exclude the old last one.
proof fn lemma_entries_text_push_prefix(entries: Seq<(Seq<char>, BValue)>, e: (Seq<char>, BValue), k: nat)
    requires
        k < entries.len(),
    ensures
        entries_text(entries.push(e), k) == entries_text(entries, k),
    decreases k,
{
    if k > 0 {
        lemma_entries_text_push_prefix(entries, e, (k - 1) as nat);
        assert(entries.push(e)[k - 1] == entries[k - 1]);
    }
}

/// The first `k` items' text does not change when an item is added after
/// the last one, as long as the `k` items exclude the old last one.
proof fn lemma_items_text_push_prefix(items: Seq<BValue>, x: BValue, k: nat)
    requires
        k < items.len(),
    ensures
        items_text(items.push(x), k) == items_text(items, k),
    decreases k,
{
    if k > 0 {
        lemma_items_text_push_prefix(items, x, (k - 1) as nat);
        assert(items.push(x)[k - 1] == items[k - 1]);
    }
}

/// Adding an entry to a dictionary that has entries writes a comma and the
/// new entry (`"key":` and its value's text) before the closing brace, so
/// every two consecutive entries are separated by one comma and none
/// follows the last. A dictionary with no entries is `{}`, and one with a
/// single entry is that entry in braces.
pub proof fn lemma_dict_text_adds_entry(entries: Seq<(Seq<char>, BValue)>, e: (Seq<char>, BValue))
    ensures
        value_text(BValue::Dict(Seq::empty())) == Some(seq!['{', '}']),
        value_text(e.1) matches Some(b) ==> value_text(BValue::Dict(seq![e])) == Some(
            seq!['{', '"'] + e.0 + seq!['"', ':'] + b + seq!['}'],
        ),
        entries.len() > 0 ==> match (value_text(BValue::Dict(entries)), value_text(e.1)) {
            (Some(x), Some(b)) => value_text(BValue::Dict(entries.push(e))) == Some(
                x.drop_last() + seq![',', '"'] + e.0 + seq!['"', ':'] + b + seq!['}'],
            ),
            _ => value_text(BValue::Dict(entries.push(e))) is None,
        },
{
    assert(entries_text(Seq::<(Seq<char>, BValue)>::empty(), 0) == Some(Seq::<char>::empty()));
    assert(seq!['{'] + Seq::<char>::empty() + seq!['}'] =~= seq!['{', '}']);
    let one = seq![e];
    assert(one[0] == e);
    assert(entries_text(one, 0) == Some(Seq::<char>::empty()));
    if let Some(b) = value_text(e.1) {
        assert(seq!['{'] + (Seq::<char>::empty() + seq!['"'] + e.0 + seq!['"', ':'] + b + separator(0, 1)) + seq!['}']
            =~= seq!['{', '"'] + e.0 + seq!['"', ':'] + b + seq!['}']);
    }
    if entries.len() > 0 {
        let n = entries.len();
        let big = entries.push(e);
        lemma_entries_text_push_prefix(entries, e, (n - 1) as nat);
        assert(big[n - 1] == entries[n - 1]);
        assert(big[n as int] == e);
        match (entries_text(entries, (n - 1) as nat), value_text(entries[n - 1].1)) {
            (Some(a), Some(c)) => {
                let piece = a + seq!['"'] + entries[n - 1].0 + seq!['"', ':'] + c;
                assert(entries_text(entries, n) == Some(piece + separator(n - 1, n as int)));
                assert(piece + separator(n - 1, n as int) =~= piece);
                assert(entries_text(big, n) == Some(piece + separator(n - 1, (n + 1) as int)));
                let x = seq!['{'] + piece + seq!['}'];
                assert(value_text(BValue::Dict(entries)) == Some(x));
                assert(x.drop_last() =~= seq!['{'] + piece);
                if let Some(b) = value_text(e.1) {
                    let t = piece + seq![','] + seq!['"'] + e.0 + seq!['"', ':'] + b + separator(n as int, (n + 1) as int);
                    assert(entries_text(big, (n + 1) as nat) == Some(t));
                    assert(seq!['{'] + t + seq!['}'] =~= x.drop_last() + seq![',', '"'] + e.0 + seq!['"', ':'] + b
                        + seq!['}']);
                }
            },
            _ => {
                assert(entries_text(big, n) is None);
            },
        }
    }
}

/// Adding an item to a list that has items writes a comma and the new
/// item's text before the closing bracket, so every two consecutive items
/// are separated by one comma and none follows the last. A list with no
/// items is `[]`, and one with a single item is that item in brackets.
pub proof fn lemma_list_text_adds_item(items: Seq<BValue>, x: BValue)
    ensures
        value_text(BValue::List(Seq::empty())) == Some(seq!['[', ']']),
        value_text(x) matches Some(b) ==> value_text(BValue::List(seq![x])) == Some(seq!['['] + b + seq![']']),
        items.len() > 0 ==> match (value_text(BValue::List(items)), value_text(x)) {
            (Some(y), Some(b)) => value_text(BValue::List(items.push(x))) == Some(
                y.drop_last() + seq![','] + b + seq![']'],
            ),
            _ => value_text(BValue::List(items.push(x))) is None,
        },
{
    assert(items_text(Seq::<BValue>::empty(), 0) == Some(Seq::<char>::empty()));
    assert(seq!['['] + Seq::<char>::empty() + seq![']'] =~= seq!['[', ']']);
    let one = seq![x];
    assert(one[0] == x);
    assert(items_text(one, 0) == Some(Seq::<char>::empty()));
    if let Some(b) = value_text(x) {
        assert(seq!['['] + (Seq::<char>::empty() + b + separator(0, 1)) + seq![']'] =~= seq!['['] + b + seq![']']);
    }
    if items.len() > 0 {
        let n = items.len();
        let big = items.push(x);
        lemma_items_text_push_prefix(items, x, (n - 1) as nat);
        assert(big[n - 1] == items[n - 1]);
        assert(big[n as int] == x);
        match (items_text(items, (n - 1) as nat), value_text(items[n - 1])) {
            (Some(a), Some(c)) => {
                let piece = a + c;
                assert(items_text(items, n) == Some(piece + separator(n - 1, n as int)));
                assert(piece + separator(n - 1, n as int) =~= piece);
                assert(items_text(big, n) == Some(piece + separator(n - 1, (n + 1) as int)));
                let y = seq!['['] + piece + seq![']'];
                assert(value_text(BValue::List(items)) == Some(y));
                assert(y.drop_last() =~= seq!['['] + piece);
                if let Some(b) = value_text(x) {
                    let t = piece + seq![','] + b + separator(n as int, (n + 1) as int);
                    assert(items_text(big, (n + 1) as nat) == Some(t));
                    assert(seq!['['] + t + seq![']'] =~= y.drop_last() + seq![','] + b + seq![']']);
                }
            },
            _ => {
                assert(items_text(big, n) is None);
            },
        }
    }
}

} // verus!
