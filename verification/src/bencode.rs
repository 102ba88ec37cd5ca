//! Bencode values: building them from the token stream.
use vstd::prelude::*;
use vstd::utf8::*;

use crate::number::{parse_i64, parsed_i64};
use crate::text::string_from_utf8;
use crate::tokens::{bendy_token_stream, tokenize, tokens_view, TokenItem, TokenView};

verus! {

/// Why a document was refused.
#[derive(Debug, PartialEq, Eq)]
pub enum ParseError {
    InvalidFormat,
}

/// How deep lists and dictionaries may nest in a document decoded as a
/// [`BencodeValue`].
pub const VALUE_MAX_DEPTH: usize = 2048;

/// A decoded bencode value.
#[derive(Debug, Eq, PartialEq)]
pub enum BencodeValue {
    Int(i64),
    Bytes(Vec<u8>),
    List(Vec<BencodeValue>),
    Dict(Vec<(String, BencodeValue)>),
}

/// The mathematical model of a [`BencodeValue`].
pub enum BValue {
    Int(i64),
    Bytes(Seq<u8>),
    List(Seq<BValue>),
    Dict(Seq<(Seq<char>, BValue)>),
}

/// The model of a value.
pub open spec fn bvalue_of(v: BencodeValue) -> BValue
    decreases v,
{
    match v {
        BencodeValue::Int(i) => BValue::Int(i),
        BencodeValue::Bytes(b) => BValue::Bytes(b@),
        BencodeValue::List(items) => BValue::List(list_view(items@)),
        BencodeValue::Dict(items) => BValue::Dict(dict_view(items@)),
    }
}

/// The models of the items of a list.
pub open spec fn list_view(s: Seq<BencodeValue>) -> Seq<BValue>
    decreases s,
{
    if s.len() == 0 {
        Seq::empty()
    } else {
        list_view(s.drop_last()).push(bvalue_of(s.last()))
    }
}

/// The models of the entries of a dictionary.
pub open spec fn dict_view(s: Seq<(String, BencodeValue)>) -> Seq<(Seq<char>, BValue)>
    decreases s,
{
    if s.len() == 0 {
        Seq::empty()
    } else {
        dict_view(s.drop_last()).push((s.last().0@, bvalue_of(s.last().1)))
    }
}

impl View for BencodeValue {
    type V = BValue;

    open spec fn view(&self) -> BValue {
        bvalue_of(*self)
    }
}

pub(crate) proof fn lemma_list_view_index(s: Seq<BencodeValue>)
    ensures
        list_view(s).len() == s.len(),
        forall|k: int| 0 <= k < s.len() ==> #[trigger] list_view(s)[k] == bvalue_of(s[k]),
    decreases s.len(),
{
    if s.len() > 0 {
        lemma_list_view_index(s.drop_last());
    }
}

pub(crate) proof fn lemma_dict_view_index(s: Seq<(String, BencodeValue)>)
    ensures
        dict_view(s).len() == s.len(),
        forall|k: int| 0 <= k < s.len() ==> #[trigger] dict_view(s)[k] == (s[k].0@, bvalue_of(s[k].1)),
    decreases s.len(),
{
    if s.len() > 0 {
        lemma_dict_view_index(s.drop_last());
    }
}

impl Clone for BencodeValue {
    /// A copy of the value, with the same model.
    fn clone(&self) -> (res: Self)
        ensures
            res@ == self@,
        decreases self,
    {
        match self {
            BencodeValue::Int(i) => BencodeValue::Int(*i),
            BencodeValue::Bytes(b) => {
                let c = b.clone();
                assert(c@ =~= b@);
                BencodeValue::Bytes(c)
            },
            BencodeValue::List(items) => {
                let mut out: Vec<BencodeValue> = Vec::new();
                let mut i: usize = 0;
                assert(decreases_to!(*self => *items));
                while i < items.len()
                    invariant
                        i <= items.len(),
                        *self == BencodeValue::List(*items),
                        decreases_to!(*self => *items),
                        list_view(out@) == list_view(items@.take(i as int)),
                    decreases items.len() - i,
                {
                    proof {
                        assert(decreases_to!(*items => items@));
                        assert(decreases_to!(items@ => items@[i as int]));
                    }
                    let c = items[i].clone();
                    proof {
                        lemma_list_view_push(out@, c);
                        lemma_list_view_push(items@.take(i as int), items@[i as int]);
                        assert(items@.take(i + 1) =~= items@.take(i as int).push(items@[i as int]));
                    }
                    out.push(c);
                    i = i + 1;
                }
                assert(items@.take(items.len() as int) =~= items@);
                BencodeValue::List(out)
            },
            BencodeValue::Dict(entries) => {
                let mut out: Vec<(String, BencodeValue)> = Vec::new();
                let mut i: usize = 0;
                assert(decreases_to!(*self => *entries));
                while i < entries.len()
                    invariant
                        i <= entries.len(),
                        *self == BencodeValue::Dict(*entries),
                        decreases_to!(*self => *entries),
                        dict_view(out@) == dict_view(entries@.take(i as int)),
                    decreases entries.len() - i,
                {
                    proof {
                        assert(decreases_to!(*entries => entries@));
                        assert(decreases_to!(entries@ => entries@[i as int]));
                        assert(decreases_to!(entries@[i as int] => entries@[i as int].1));
                    }
                    let (k, v) = &entries[i];
                    let e = (k.clone(), v.clone());
                    proof {
                        lemma_dict_view_push(out@, e);
                        lemma_dict_view_push(entries@.take(i as int), entries@[i as int]);
                        assert(entries@.take(i + 1) =~= entries@.take(i as int).push(entries@[i as int]));
                    }
                    out.push(e);
                    i = i + 1;
                }
                assert(entries@.take(entries.len() as int) =~= entries@);
                BencodeValue::Dict(out)
            },
        }
    }
}

/// How reading a value from the token stream ended.
#[derive(Debug, PartialEq, Eq, Clone, Copy)]
pub enum Outcome {
    /// The value was read to its end.
    Complete,
    /// The stream failed inside the value; every open list and dictionary
    /// keeps the items read so far and ends there.
    Cut,
    /// The value holds an integer outside the range of `i64` or a dictionary
    /// key that is not UTF-8, which the decoder does not accept.
    Abort,
}

/// Reads the value that starts at position `i` of `toks`: the value, the
/// position after it, and how reading ended.
pub open spec fn parse_value(toks: Seq<TokenView>, i: int) -> (BValue, int, Outcome)
    decreases toks.len() - i, 0int,
{
    if 0 <= i < toks.len() {
        match toks[i] {
            TokenView::Num(t) => match parsed_i64(encode_utf8(t)) {
                Some(v) => (BValue::Int(v), i + 1, Outcome::Complete),
                None => (BValue::Int(0), i + 1, Outcome::Abort),
            },
            TokenView::Bytes(b) => (BValue::Bytes(b), i + 1, Outcome::Complete),
            TokenView::List => parse_list(toks, i + 1, Seq::empty()),
            TokenView::Dict => parse_dict(toks, i + 1, Seq::empty()),
            _ => (BValue::Int(0), i, Outcome::Cut),
        }
    } else {
        (BValue::Int(0), i, Outcome::Cut)
    }
}

/// Reads the rest of a list from position `j`, `acc` holding the items read.
pub open spec fn parse_list(toks: Seq<TokenView>, j: int, acc: Seq<BValue>) -> (BValue, int, Outcome)
    decreases toks.len() - j, 1int,
{
    if 0 <= j < toks.len() {
        match toks[j] {
            TokenView::Error => (BValue::List(acc), j, Outcome::Cut),
            TokenView::End => (BValue::List(acc), j + 1, Outcome::Complete),
            _ => {
                let (v, k, o) = parse_value(toks, j);
                match o {
                    Outcome::Abort => (BValue::List(acc), k, Outcome::Abort),
                    Outcome::Cut => (BValue::List(acc.push(v)), k, Outcome::Cut),
                    Outcome::Complete => if j < k <= toks.len() {
                        parse_list(toks, k, acc.push(v))
                    } else {
                        (BValue::List(acc.push(v)), k, Outcome::Cut)
                    },
                }
            },
        }
    } else {
        (BValue::List(acc), j, Outcome::Cut)
    }
}

/// Reads the rest of a dictionary from position `j`, `acc` holding the
/// entries read. A value position holding the end of a container, and a key
/// that is not a byte string, are never yielded by the tokenizer; they end
/// the stream here.
pub open spec fn parse_dict(toks: Seq<TokenView>, j: int, acc: Seq<(Seq<char>, BValue)>) -> (BValue, int, Outcome)
    decreases toks.len() - j, 1int,
{
    if 0 <= j < toks.len() {
        match toks[j] {
            TokenView::Error => (BValue::Dict(acc), j, Outcome::Cut),
            TokenView::End => (BValue::Dict(acc), j + 1, Outcome::Complete),
            TokenView::Bytes(key) => {
                if j + 1 >= toks.len() || toks[j + 1] is Error || toks[j + 1] is End {
                    (BValue::Dict(acc), j + 1, Outcome::Cut)
                } else if !valid_utf8(key) {
                    (BValue::Dict(acc), j + 1, Outcome::Abort)
                } else {
                    let (v, m, o) = parse_value(toks, j + 1);
                    let entry = (decode_utf8(key), v);
                    match o {
                        Outcome::Abort => (BValue::Dict(acc), m, Outcome::Abort),
                        Outcome::Cut => (BValue::Dict(acc.push(entry)), m, Outcome::Cut),
                        Outcome::Complete => if j < m <= toks.len() {
                            parse_dict(toks, m, acc.push(entry))
                        } else {
                            (BValue::Dict(acc.push(entry)), m, Outcome::Cut)
                        },
                    }
                }
            },
            _ => (BValue::Dict(acc), j, Outcome::Cut),
        }
    } else {
        (BValue::Dict(acc), j, Outcome::Cut)
    }
}


proof fn lemma_list_view_push(s: Seq<BencodeValue>, v: BencodeValue)
    ensures
        list_view(s.push(v)) == list_view(s).push(bvalue_of(v)),
{
    assert(s.push(v).drop_last() =~= s);
}

proof fn lemma_dict_view_push(s: Seq<(String, BencodeValue)>, e: (String, BencodeValue))
    ensures
        dict_view(s.push(e)) == dict_view(s).push((e.0@, bvalue_of(e.1))),
{
    assert(s.push(e).drop_last() =~= s);
}

/// Reads the value that starts at position `i` of the token stream, as
/// [`parse_value`] states.
fn read_value(toks: &Vec<TokenItem>, i: usize) -> (res: (BencodeValue, usize, Outcome))
    ensures
        ({
            let (v, k, o) = parse_value(tokens_view(toks@), i as int);
            res.0@ == v && res.1 == k && res.2 == o
        }),
    decreases toks.len() - i,
{
    let ghost tv = tokens_view(toks@);
    let len = toks.len();
    if i >= len {
        return (BencodeValue::Int(0), i, Outcome::Cut);
    }
    assert(tv[i as int] == toks@[i as int]@);
    match &toks[i] {
        TokenItem::Num(t) => {
            match parse_i64(t.as_str().as_bytes()) {
                Some(v) => (BencodeValue::Int(v), i + 1, Outcome::Complete),
                None => (BencodeValue::Int(0), i + 1, Outcome::Abort),
            }
        },
        TokenItem::Bytes(b) => {
            let c = b.clone();
            assert(c@ =~= b@);
            (BencodeValue::Bytes(c), i + 1, Outcome::Complete)
        },
        TokenItem::List => {
            let mut items: Vec<BencodeValue> = Vec::new();
            let mut j: usize = i + 1;
            assert(list_view(items@) =~= Seq::<BValue>::empty());
            loop
                invariant
                    i < j <= len,
                    len == toks@.len(),
                    tv == tokens_view(toks@),
                    parse_list(tv, j as int, list_view(items@)) == parse_value(tv, i as int),
                decreases len - j,
            {
                if j >= len {
                    return (BencodeValue::List(items), j, Outcome::Cut);
                }
                assert(tv[j as int] == toks@[j as int]@);
                match &toks[j] {
                    TokenItem::Error => {
                        return (BencodeValue::List(items), j, Outcome::Cut);
                    },
                    TokenItem::End => {
                        return (BencodeValue::List(items), j + 1, Outcome::Complete);
                    },
                    _ => {
                        let (v, k, o) = read_value(toks, j);
                        proof {
                            lemma_list_view_push(items@, v);
                        }
                        match o {
                            Outcome::Abort => {
                                return (BencodeValue::List(items), k, Outcome::Abort);
                            },
                            Outcome::Cut => {
                                items.push(v);
                                return (BencodeValue::List(items), k, Outcome::Cut);
                            },
                            Outcome::Complete => {
                                items.push(v);
                                if j < k && k <= len {
                                    j = k;
                                } else {
                                    return (BencodeValue::List(items), k, Outcome::Cut);
                                }
                            },
                        }
                    },
                }
            }
        },
        TokenItem::Dict => {
            let mut items: Vec<(String, BencodeValue)> = Vec::new();
            let mut j: usize = i + 1;
            assert(dict_view(items@) =~= Seq::<(Seq<char>, BValue)>::empty());
            loop
                invariant
                    i < j <= len,
                    len == toks@.len(),
                    tv == tokens_view(toks@),
                    parse_dict(tv, j as int, dict_view(items@)) == parse_value(tv, i as int),
                decreases len - j,
            {
                if j >= len {
                    return (BencodeValue::Dict(items), j, Outcome::Cut);
                }
                assert(tv[j as int] == toks@[j as int]@);
                match &toks[j] {
                    TokenItem::Error => {
                        return (BencodeValue::Dict(items), j, Outcome::Cut);
                    },
                    TokenItem::End => {
                        return (BencodeValue::Dict(items), j + 1, Outcome::Complete);
                    },
                    TokenItem::Bytes(kb) => {
                        if j + 1 >= len {
                            return (BencodeValue::Dict(items), j + 1, Outcome::Cut);
                        }
                        assert(tv[j + 1] == toks@[j + 1]@);
                        match &toks[j + 1] {
                            TokenItem::Error => {
                                return (BencodeValue::Dict(items), j + 1, Outcome::Cut);
                            },
                            TokenItem::End => {
                                return (BencodeValue::Dict(items), j + 1, Outcome::Cut);
                            },
                            _ => {},
                        }
                        let kc = kb.clone();
                        assert(kc@ =~= kb@);
                        let key = match string_from_utf8(kc) {
                            Some(s) => s,
                            None => {
                                return (BencodeValue::Dict(items), j + 1, Outcome::Abort);
                            },
                        };
                        let (v, m, o) = read_value(toks, j + 1);
                        proof {
                            lemma_dict_view_push(items@, (key, v));
                        }
                        match o {
                            Outcome::Abort => {
                                return (BencodeValue::Dict(items), m, Outcome::Abort);
                            },
                            Outcome::Cut => {
                                items.push((key, v));
                                return (BencodeValue::Dict(items), m, Outcome::Cut);
                            },
                            Outcome::Complete => {
                                items.push((key, v));
                                if j < m && m <= len {
                                    j = m;
                                } else {
                                    return (BencodeValue::Dict(items), m, Outcome::Cut);
                                }
                            },
                        }
                    },
                    _ => {
                        return (BencodeValue::Dict(items), j, Outcome::Cut);
                    },
                }
            }
        },
        _ => (BencodeValue::Int(0), i, Outcome::Cut),
    }
}


/// The value that a document with token stream `toks` decodes to: the first
/// value of the stream, lists and dictionaries cut short where the stream
/// fails inside them. `None` when the stream does not start with a value, or
/// when the value holds an integer outside the range of `i64` or a
/// dictionary key that is not UTF-8.
pub open spec fn decoded_value(toks: Seq<TokenView>) -> Option<BValue> {
    if toks.len() == 0 || toks[0] is Error || toks[0] is End {
        None
    } else {
        let (v, _, o) = parse_value(toks, 0);
        if o == Outcome::Abort {
            None
        } else {
            Some(v)
        }
    }
}

/// Two token streams hold the same first `k` tokens.
pub open spec fn agree_below(t1: Seq<TokenView>, t2: Seq<TokenView>, k: int) -> bool {
    &&& k <= t1.len()
    &&& k <= t2.len()
    &&& forall|p: int| 0 <= p < k ==> t1[p] == t2[p]
}

proof fn lemma_value_within(t: Seq<TokenView>, i: int)
    requires
        0 <= i,
        parse_value(t, i).2 == Outcome::Complete,
    ensures
        i < parse_value(t, i).1 <= t.len(),
    decreases t.len() - i, 0int,
{
    match t[i] {
        TokenView::List => {
            lemma_list_within(t, i + 1, Seq::empty());
        },
        TokenView::Dict => {
            lemma_dict_within(t, i + 1, Seq::empty());
        },
        _ => {},
    }
}

proof fn lemma_list_within(t: Seq<TokenView>, j: int, acc: Seq<BValue>)
    requires
        0 <= j,
        parse_list(t, j, acc).2 == Outcome::Complete,
    ensures
        j < parse_list(t, j, acc).1 <= t.len(),
    decreases t.len() - j, 1int,
{
    if !(t[j] is End) {
        let (v, k1, o) = parse_value(t, j);
        lemma_list_within(t, k1, acc.push(v));
    }
}

proof fn lemma_dict_within(t: Seq<TokenView>, j: int, acc: Seq<(Seq<char>, BValue)>)
    requires
        0 <= j,
        parse_dict(t, j, acc).2 == Outcome::Complete,
    ensures
        j < parse_dict(t, j, acc).1 <= t.len(),
    decreases t.len() - j, 1int,
{
    if let TokenView::Bytes(key) = t[j] {
        let (v, m, o) = parse_value(t, j + 1);
        lemma_dict_within(t, m, acc.push((decode_utf8(key), v)));
    }
}

proof fn lemma_value_prefix(t1: Seq<TokenView>, t2: Seq<TokenView>, i: int)
    requires
        0 <= i,
        parse_value(t1, i).2 == Outcome::Complete,
        agree_below(t1, t2, parse_value(t1, i).1),
    ensures
        parse_value(t2, i) == parse_value(t1, i),
    decreases t1.len() - i, 0int,
{
    lemma_value_within(t1, i);
    match t1[i] {
        TokenView::List => {
            lemma_list_prefix(t1, t2, i + 1, Seq::empty());
        },
        TokenView::Dict => {
            lemma_dict_prefix(t1, t2, i + 1, Seq::empty());
        },
        _ => {},
    }
}

proof fn lemma_list_prefix(t1: Seq<TokenView>, t2: Seq<TokenView>, j: int, acc: Seq<BValue>)
    requires
        0 <= j,
        parse_list(t1, j, acc).2 == Outcome::Complete,
        agree_below(t1, t2, parse_list(t1, j, acc).1),
    ensures
        parse_list(t2, j, acc) == parse_list(t1, j, acc),
    decreases t1.len() - j, 1int,
{
    lemma_list_within(t1, j, acc);
    if !(t1[j] is End) {
        let (v, k1, o) = parse_value(t1, j);
        lemma_list_within(t1, k1, acc.push(v));
        lemma_list_prefix(t1, t2, k1, acc.push(v));
        lemma_value_prefix(t1, t2, j);
    }
}

proof fn lemma_dict_prefix(t1: Seq<TokenView>, t2: Seq<TokenView>, j: int, acc: Seq<(Seq<char>, BValue)>)
    requires
        0 <= j,
        parse_dict(t1, j, acc).2 == Outcome::Complete,
        agree_below(t1, t2, parse_dict(t1, j, acc).1),
    ensures
        parse_dict(t2, j, acc) == parse_dict(t1, j, acc),
    decreases t1.len() - j, 1int,
{
    lemma_dict_within(t1, j, acc);
    if let TokenView::Bytes(key) = t1[j] {
        let (v, m, o) = parse_value(t1, j + 1);
        let entry = (decode_utf8(key), v);
        lemma_dict_within(t1, m, acc.push(entry));
        lemma_dict_prefix(t1, t2, m, acc.push(entry));
        lemma_value_prefix(t1, t2, j + 1);
    }
}

/// A list's items are read by the same rule as any value, whatever their
/// kind: where a complete value starts at `j`, the list keeps that value and
/// goes on reading after it.
pub proof fn lemma_list_reads_items_as_values(t: Seq<TokenView>, j: int, acc: Seq<BValue>)
    requires
        0 <= j,
        parse_value(t, j).2 == Outcome::Complete,
    ensures
        parse_list(t, j, acc) == parse_list(t, parse_value(t, j).1, acc.push(parse_value(t, j).0)),
{
    lemma_value_within(t, j);
}

/// A dictionary's entries are read as a UTF-8 byte-string key followed by a
/// value read by the same rule as any value: where a complete value follows
/// the key, the dictionary keeps the entry and goes on reading after it.
pub proof fn lemma_dict_reads_entries_as_values(t: Seq<TokenView>, j: int, key: Seq<u8>, acc: Seq<(Seq<char>, BValue)>)
    requires
        0 <= j < t.len(),
        t[j] == TokenView::Bytes(key),
        valid_utf8(key),
        parse_value(t, j + 1).2 == Outcome::Complete,
    ensures
        parse_dict(t, j, acc) == parse_dict(
            t,
            parse_value(t, j + 1).1,
            acc.push((decode_utf8(key), parse_value(t, j + 1).0)),
        ),
{
    lemma_value_within(t, j + 1);
}

/// A list ends at its end token, keeping the items read.
pub proof fn lemma_list_ends_at_end(t: Seq<TokenView>, j: int, acc: Seq<BValue>)
    requires
        0 <= j < t.len(),
        t[j] == TokenView::End,
    ensures
        parse_list(t, j, acc) == (BValue::List(acc), j + 1, Outcome::Complete),
{
}

/// Decoding reads the first value of the stream and nothing after it: once
/// that value is read to its end, any tokens may follow it without changing
/// what is decoded.
pub proof fn lemma_decoded_value_ignores_trailing(toks: Seq<TokenView>, rest: Seq<TokenView>)
    requires
        parse_value(toks, 0).2 == Outcome::Complete,
    ensures
        decoded_value(toks.take(parse_value(toks, 0).1) + rest) == decoded_value(toks),
        decoded_value(toks) == Some(parse_value(toks, 0).0),
{
    lemma_value_within(toks, 0);
    let k = parse_value(toks, 0).1;
    let t2 = toks.take(k) + rest;
    assert(agree_below(toks, t2, k));
    lemma_value_prefix(toks, t2, 0);
}

impl BencodeValue {
    /// Decodes the first value of a token stream, as [`decoded_value`] states.
    pub fn from_tokens(toks: &Vec<TokenItem>) -> (res: Result<BencodeValue, ParseError>)
        ensures
            res is Ok <==> decoded_value(tokens_view(toks@)) is Some,
            res matches Ok(v) ==> Some(v@) == decoded_value(tokens_view(toks@)),
            res matches Err(e) ==> e == ParseError::InvalidFormat,
    {
        if toks.len() == 0 {
            return Err(ParseError::InvalidFormat);
        }
        assert(tokens_view(toks@)[0] == toks@[0]@);
        match &toks[0] {
            TokenItem::Error => {
                return Err(ParseError::InvalidFormat);
            },
            TokenItem::End => {
                return Err(ParseError::InvalidFormat);
            },
            _ => {},
        }
        let (v, _, o) = read_value(toks, 0);
        match o {
            Outcome::Abort => Err(ParseError::InvalidFormat),
            _ => Ok(v),
        }
    }
}

/// Decodes the bencode document `encoded_value`: the value that `bendy`'s
/// token stream for its bytes (nesting limited to [`VALUE_MAX_DEPTH`])
/// decodes to, as [`decoded_value`] states.
pub fn decode_bn(encoded_value: &str) -> (res: Result<BencodeValue, ParseError>)
    ensures
        ({
            let expected = decoded_value(bendy_token_stream(encode_utf8(encoded_value@), VALUE_MAX_DEPTH));
            &&& res is Ok <==> expected is Some
            &&& res matches Ok(v) ==> Some(v@) == expected
            &&& res matches Err(e) ==> e == ParseError::InvalidFormat
        }),
{
    let toks = tokenize(encoded_value.as_bytes(), VALUE_MAX_DEPTH);
    BencodeValue::from_tokens(&toks)
}

} // verus!
