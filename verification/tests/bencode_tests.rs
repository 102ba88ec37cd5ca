use bittorrent::bencode::{decode_bn, BencodeValue, ParseError};
use bittorrent::render::render_decoded_value;
use bittorrent::tokens::TokenItem;

fn text(v: &BencodeValue) -> String {
    render_decoded_value(v).expect("byte strings are UTF-8")
}

#[test]
fn decodes_integer() {
    assert_eq!(decode_bn("i52e"), Ok(BencodeValue::Int(52)));
    assert_eq!(decode_bn("i-52e"), Ok(BencodeValue::Int(-52)));
    assert_eq!(decode_bn("i0e"), Ok(BencodeValue::Int(0)));
}

#[test]
fn decodes_extreme_integers() {
    assert_eq!(decode_bn("i9223372036854775807e"), Ok(BencodeValue::Int(i64::MAX)));
    assert_eq!(decode_bn("i-9223372036854775808e"), Ok(BencodeValue::Int(i64::MIN)));
}

#[test]
fn refuses_integer_out_of_range() {
    assert_eq!(decode_bn("i9223372036854775808e"), Err(ParseError::InvalidFormat));
    assert_eq!(decode_bn("li1ei99999999999999999999ee"), Err(ParseError::InvalidFormat));
}

#[test]
fn decodes_byte_string() {
    assert_eq!(decode_bn("5:hello"), Ok(BencodeValue::Bytes(b"hello".to_vec())));
    assert_eq!(decode_bn("0:"), Ok(BencodeValue::Bytes(Vec::new())));
}

#[test]
fn decodes_list() {
    assert_eq!(
        decode_bn("l5:helloi52ee"),
        Ok(BencodeValue::List(vec![BencodeValue::Bytes(b"hello".to_vec()), BencodeValue::Int(52)]))
    );
    assert_eq!(decode_bn("le"), Ok(BencodeValue::List(vec![])));
}

#[test]
fn decodes_dictionary() {
    assert_eq!(
        decode_bn("d3:foo3:bar5:helloi52ee"),
        Ok(BencodeValue::Dict(vec![
            ("foo".to_string(), BencodeValue::Bytes(b"bar".to_vec())),
            ("hello".to_string(), BencodeValue::Int(52)),
        ]))
    );
}

#[test]
fn decodes_nested_values() {
    assert_eq!(
        decode_bn("d4:listli1eli2eee3:subd1:x1:yee"),
        Ok(BencodeValue::Dict(vec![
            (
                "list".to_string(),
                BencodeValue::List(vec![
                    BencodeValue::Int(1),
                    BencodeValue::List(vec![BencodeValue::Int(2)]),
                ])
            ),
            (
                "sub".to_string(),
                BencodeValue::Dict(vec![("x".to_string(), BencodeValue::Bytes(b"y".to_vec()))])
            ),
        ]))
    );
}

#[test]
fn refuses_malformed_start() {
    assert_eq!(decode_bn(""), Err(ParseError::InvalidFormat));
    assert_eq!(decode_bn("x"), Err(ParseError::InvalidFormat));
    assert_eq!(decode_bn("e"), Err(ParseError::InvalidFormat));
    assert_eq!(decode_bn("i01e"), Err(ParseError::InvalidFormat));
    assert_eq!(decode_bn("5:abc"), Err(ParseError::InvalidFormat));
}

#[test]
fn ignores_trailing_data() {
    assert_eq!(decode_bn("i1ei2e"), Ok(BencodeValue::Int(1)));
    assert_eq!(decode_bn("i1ex"), Ok(BencodeValue::Int(1)));
}

#[test]
fn keeps_items_read_before_a_fault() {
    assert_eq!(decode_bn("l1:a"), Ok(BencodeValue::List(vec![BencodeValue::Bytes(b"a".to_vec())])));
    assert_eq!(
        decode_bn("li1ei2ex"),
        Ok(BencodeValue::List(vec![BencodeValue::Int(1), BencodeValue::Int(2)]))
    );
    // keys out of order end the dictionary
    assert_eq!(
        decode_bn("d1:bi1e1:ai2ee"),
        Ok(BencodeValue::Dict(vec![("b".to_string(), BencodeValue::Int(1))]))
    );
}

#[test]
fn refuses_non_utf8_key() {
    let toks = vec![
        TokenItem::Dict,
        TokenItem::Bytes(vec![0xff, 0xfe]),
        TokenItem::Num("1".to_string()),
        TokenItem::End,
    ];
    assert_eq!(BencodeValue::from_tokens(&toks), Err(ParseError::InvalidFormat));
    let toks = vec![
        TokenItem::Dict,
        TokenItem::Bytes(b"ok".to_vec()),
        TokenItem::Num("1".to_string()),
        TokenItem::End,
    ];
    assert_eq!(
        BencodeValue::from_tokens(&toks),
        Ok(BencodeValue::Dict(vec![("ok".to_string(), BencodeValue::Int(1))]))
    );
}

#[test]
fn from_tokens_reads_the_first_value() {
    let toks = vec![TokenItem::List, TokenItem::Num("7".to_string()), TokenItem::Error];
    assert_eq!(BencodeValue::from_tokens(&toks), Ok(BencodeValue::List(vec![BencodeValue::Int(7)])));
    assert_eq!(BencodeValue::from_tokens(&vec![TokenItem::End]), Err(ParseError::InvalidFormat));
    assert_eq!(BencodeValue::from_tokens(&vec![]), Err(ParseError::InvalidFormat));
    assert_eq!(
        BencodeValue::from_tokens(&vec![TokenItem::Num("+12".to_string())]),
        Ok(BencodeValue::Int(12))
    );
}

#[test]
fn renders_values() {
    assert_eq!(text(&BencodeValue::Int(-7)), "-7\n");
    assert_eq!(text(&BencodeValue::Bytes(b"hi".to_vec())), "\"hi\"\n");
    let v = decode_bn("d3:foo3:bar5:helloi52ee").unwrap();
    assert_eq!(text(&v), "{\"foo\":\"bar\",\"hello\":52}\n");
    let v = decode_bn("l5:helloi52ee").unwrap();
    assert_eq!(text(&v), "[\"hello\",52]\n");
    let v = decode_bn("d4:listli1eli2eee3:subd1:x1:yee").unwrap();
    assert_eq!(text(&v), "{\"list\":[1,[2]],\"sub\":{\"x\":\"y\"}}\n");
    assert_eq!(text(&BencodeValue::List(vec![])), "[]\n");
    assert_eq!(text(&BencodeValue::Dict(vec![])), "{}\n");
}

#[test]
fn render_refuses_non_utf8_bytes() {
    assert_eq!(render_decoded_value(&BencodeValue::Bytes(vec![0xff])), None);
    let v = BencodeValue::List(vec![BencodeValue::Int(1), BencodeValue::Bytes(vec![0xc3])]);
    assert_eq!(render_decoded_value(&v), None);
}

#[test]
fn clone_keeps_value() {
    let v = decode_bn("d4:listli1eli2eee3:subd1:x1:yee").unwrap();
    let c = v.clone();
    assert_eq!(c, v);
}

#[test]
fn printed_integers_parse_back() {
    for i in [0i64, 7, -7, 1234567890, i64::MAX, i64::MIN] {
        let printed = text(&BencodeValue::Int(i));
        let digits = printed.trim_end_matches('\n');
        assert_eq!(bittorrent::number::parse_i64(digits.as_bytes()), Some(i));
        assert_eq!(decode_bn(&format!("i{}e", digits)), Ok(BencodeValue::Int(i)));
    }
}
