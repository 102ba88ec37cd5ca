use bittorrent::bencode::BencodeValue;
use bittorrent::render::{render_decoded_value, render_dictionary, render_list};

fn sample_list() -> BencodeValue {
    BencodeValue::List(vec![
        BencodeValue::Int(-3),
        BencodeValue::Bytes(b"ab".to_vec()),
        BencodeValue::Dict(vec![("k".to_string(), BencodeValue::List(vec![]))]),
    ])
}

#[test]
fn list_printer_writes_list_text() {
    assert_eq!(render_list(&sample_list(), false), Some("[-3,\"ab\",{\"k\":[]}]\n".to_string()));
    assert_eq!(render_list(&sample_list(), true), Some("[-3,\"ab\",{\"k\":[]}]".to_string()));
    assert_eq!(render_list(&sample_list(), false), render_decoded_value(&sample_list()));
}

#[test]
fn list_printer_on_other_values() {
    assert_eq!(render_list(&BencodeValue::Int(5), false), Some("unknown type\n".to_string()));
    assert_eq!(render_list(&BencodeValue::Int(5), true), Some("unknown type".to_string()));
    let d = BencodeValue::Dict(vec![]);
    assert_eq!(render_list(&d, true), Some("unknown type".to_string()));
}

#[test]
fn dictionary_printer_writes_dictionary_text() {
    let d = BencodeValue::Dict(vec![
        ("a".to_string(), BencodeValue::Int(1)),
        ("b".to_string(), BencodeValue::Bytes(b"x".to_vec())),
    ]);
    assert_eq!(render_dictionary(&d, false), Some("{\"a\":1,\"b\":\"x\"}\n".to_string()));
    assert_eq!(render_dictionary(&d, true), Some("{\"a\":1,\"b\":\"x\"}".to_string()));
    assert_eq!(render_dictionary(&d, false), render_decoded_value(&d));
}

#[test]
fn dictionary_printer_on_other_values() {
    assert_eq!(render_dictionary(&BencodeValue::Int(5), false), Some("\n".to_string()));
    assert_eq!(render_dictionary(&BencodeValue::Int(5), true), Some(String::new()));
    assert_eq!(render_dictionary(&sample_list(), true), Some(String::new()));
}

#[test]
fn container_printers_refuse_non_utf8_bytes() {
    let l = BencodeValue::List(vec![BencodeValue::Bytes(vec![0xff])]);
    assert_eq!(render_list(&l, true), None);
    let d = BencodeValue::Dict(vec![("k".to_string(), BencodeValue::Bytes(vec![0xc0, 0x80]))]);
    assert_eq!(render_dictionary(&d, false), None);
}
