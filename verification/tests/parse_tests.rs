use utxoquery::bridge::parse_query_params;
use utxoquery::parsing::{hex_decode_bytes, is_decimal_number, parse_u64, split_bytes};
use utxoquery::router::{parse_cursor, parse_scripthash, usize_param};

#[test]
fn test_parse_query_param() {
    let params = parse_query_params("limit=10");
    let limit = usize_param(&params, "limit", 10).min(30);
    assert_eq!(10, limit);

    let params = parse_query_params("limit=100");
    let limit = usize_param(&params, "limit", 10).min(30);
    assert_eq!(30, limit);

    let params = parse_query_params("limit=5");
    let limit = usize_param(&params, "limit", 10).min(30);
    assert_eq!(5, limit);

    let params = parse_query_params("limit=aaa");
    let limit = usize_param(&params, "limit", 10).min(30);
    assert_eq!(10, limit);

    let params = parse_query_params("");
    let limit = usize_param(&params, "limit", 10).min(30);
    assert_eq!(10, limit);
}

#[test]
fn last_duplicate_parameter_wins() {
    let params = parse_query_params("limit=3&limit=7");
    assert_eq!(7, usize_param(&params, "limit", 10));
}

#[test]
fn parse_u64_like_std() {
    assert_eq!(Some(5), parse_u64(&b"+5".to_vec()));
    assert_eq!(Some(0), parse_u64(&b"0".to_vec()));
    assert_eq!(None, parse_u64(&b"".to_vec()));
    assert_eq!(None, parse_u64(&b"+".to_vec()));
    assert_eq!(None, parse_u64(&b"12a".to_vec()));
    assert_eq!(None, parse_u64(&b"-1".to_vec()));
    assert_eq!(Some(u64::MAX), parse_u64(&b"18446744073709551615".to_vec()));
    assert_eq!(None, parse_u64(&b"18446744073709551616".to_vec()));
}

#[test]
fn hex_decoding() {
    assert_eq!(Some(vec![0xde, 0xad]), hex_decode_bytes(&b"dead".to_vec()));
    assert_eq!(Some(vec![0xde, 0xad]), hex_decode_bytes(&b"DEAD".to_vec()));
    assert_eq!(None, hex_decode_bytes(&b"abc".to_vec()));
    assert_eq!(None, hex_decode_bytes(&b"zz".to_vec()));
    assert_eq!(Some(vec![]), hex_decode_bytes(&b"".to_vec()));
}

#[test]
fn split_on_separator() {
    let parts = split_bytes(&b"a:b::c".to_vec(), b':');
    let views: Vec<Vec<u8>> = parts;
    assert_eq!(4, views.len());
    assert_eq!(b"a".to_vec(), views[0]);
    assert_eq!(b"b".to_vec(), views[1]);
    assert_eq!(b"".to_vec(), views[2]);
    assert_eq!(b"c".to_vec(), views[3]);
}

#[test]
fn cursor_parsing() {
    // Empty and bare-separator cursors mean "from the start".
    assert!(matches!(parse_cursor(""), Ok(None)));
    assert!(matches!(parse_cursor(":"), Ok(None)));

    let txid = "11".repeat(32);
    let ok = parse_cursor(&format!("{}:7", txid)).unwrap().unwrap();
    assert_eq!(vec![0x11u8; 32], ok.txid.bytes);
    assert_eq!(7, ok.vout);

    let err = parse_cursor("a:b:c").unwrap_err();
    assert_eq!(400, err.status);
    assert_eq!("Invalid cursor format, expected 'txid:vout'", err.msg);

    let err = parse_cursor("zz:1").unwrap_err();
    assert_eq!("Invalid txid in cursor", err.msg);

    let err = parse_cursor(&format!("{}:x", txid)).unwrap_err();
    assert_eq!("Invalid vout in cursor", err.msg);
}

#[test]
fn scripthash_parsing() {
    let h = parse_scripthash(&"ab".repeat(32)).unwrap();
    assert_eq!(vec![0xabu8; 32], h.bytes);
    let err = parse_scripthash("abcd").unwrap_err();
    assert_eq!(400, err.status);
    assert_eq!("Invalid scripthash", err.msg);
}

#[test]
fn decimal_number_shapes() {
    assert!(is_decimal_number(&b"1.5".to_vec()));
    assert!(is_decimal_number(&b"-3".to_vec()));
    assert!(is_decimal_number(&b"+0.25".to_vec()));
    assert!(!is_decimal_number(&b".".to_vec()));
    assert!(!is_decimal_number(&b"".to_vec()));
    assert!(!is_decimal_number(&b"1.".to_vec()));
    assert!(!is_decimal_number(&b"1e5".to_vec()));
}
