//! The bencode token stream, as produced by `bendy`'s tokenizer.
use vstd::prelude::*;

use bendy::decoding::Decoder;
use bendy::state_tracker::Token;

verus! {

/// One item of a bencode token stream.
#[derive(Debug, PartialEq, Eq)]
pub enum TokenItem {
    /// The start of a list (`l`).
    List,
    /// The start of a dictionary (`d`).
    Dict,
    /// A byte string (`<len>:<bytes>`).
    Bytes(Vec<u8>),
    /// An integer (`i<text>e`), kept as its text.
    Num(String),
    /// The end of a list or dictionary (`e`).
    End,
    /// The tokenizer stopped on malformed input; nothing follows this item.
    Error,
}

/// The mathematical model of a [`TokenItem`].
pub enum TokenView {
    List,
    Dict,
    Bytes(Seq<u8>),
    Num(Seq<char>),
    End,
    Error,
}

impl View for TokenItem {
    type V = TokenView;

    open spec fn view(&self) -> TokenView {
        match self {
            TokenItem::List => TokenView::List,
            TokenItem::Dict => TokenView::Dict,
            TokenItem::Bytes(b) => TokenView::Bytes(b@),
            TokenItem::Num(t) => TokenView::Num(t@),
            TokenItem::End => TokenView::End,
            TokenItem::Error => TokenView::Error,
        }
    }
}

/// The token stream as a sequence of models.
pub open spec fn tokens_view(toks: Seq<TokenItem>) -> Seq<TokenView> {
    toks.map_values(|t: TokenItem| t@)
}

/// The items that `bendy`'s tokenizer yields for `bytes` when nesting is
/// limited to `max_depth` levels: the tokens in order, and, where the input is
/// malformed, an error item after the tokens read before the fault.
pub uninterp spec fn bendy_token_stream(bytes: Seq<u8>, max_depth: usize) -> Seq<TokenView>;

/// Runs `bendy::decoding::Decoder::new(bytes).with_max_depth(max_depth).tokens()`
/// to its end and hands back every item it yields, an error becoming
/// [`TokenItem::Error`]. The contract claims only that the result is the named
/// stream [`bendy_token_stream`] of the two arguments.
#[verifier::external_body]
pub(crate) fn tokenize(bytes: &[u8], max_depth: usize) -> (res: Vec<TokenItem>)
    ensures
        tokens_view(res@) == bendy_token_stream(bytes@, max_depth),
{
    Decoder::new(bytes).with_max_depth(max_depth).tokens().map(|item| match item {
        Ok(Token::List) => TokenItem::List,
        Ok(Token::Dict) => TokenItem::Dict,
        Ok(Token::String(s)) => TokenItem::Bytes(s.to_vec()),
        Ok(Token::Num(n)) => TokenItem::Num(n.to_string()),
        Ok(Token::End) => TokenItem::End,
        Err(_) => TokenItem::Error,
    }).collect()
}

} // verus!
