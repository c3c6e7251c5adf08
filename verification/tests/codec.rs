use lexi_client::builder::encode;
use lexi_client::lexi_data::{LexiData, SimpleString};
use lexi_client::lexi_type::LexiType;
use lexi_client::parser::decode;
use lexi_client::wire::DecodeError;

fn assert_round_trips(v: LexiData) {
    let shown = format!("{:?}", v);
    let bytes = encode(&v);
    let back = decode(&bytes).unwrap();
    assert_eq!(shown, format!("{:?}", back));
}

#[test]
fn round_trip_bulk() {
    assert_round_trips(LexiData::Bulk(b"vince".to_vec()));
    assert_round_trips(LexiData::Bulk(Vec::new()));
    assert_round_trips(LexiData::Bulk(b"with\r\nterminators\0inside".to_vec()));
}

#[test]
fn round_trip_int() {
    assert_round_trips(LexiData::Int(0));
    assert_round_trips(LexiData::Int(-42069));
    assert_round_trips(LexiData::Int(i64::MIN));
    assert_round_trips(LexiData::Int(i64::MAX));
}

#[test]
fn round_trip_double() {
    assert_round_trips(LexiData::Double(b"1337.1337".to_vec()));
    assert_round_trips(LexiData::Double(b"0.5".to_vec()));
    assert_round_trips(LexiData::Double(b"42".to_vec()));
}

#[test]
fn round_trip_simple() {
    assert_round_trips(LexiData::Simple(SimpleString::Okay));
    assert_round_trips(LexiData::Simple(SimpleString::Pong));
    assert_round_trips(LexiData::Simple(SimpleString::Nothing));
}

#[test]
fn round_trip_error() {
    assert_round_trips(LexiData::Error(b"Invalid command".to_vec()));
    assert_round_trips(LexiData::Error(Vec::new()));
}

#[test]
fn round_trip_nested_arrays() {
    let depth3 = LexiData::Array(vec![
        LexiData::Array(vec![
            LexiData::Array(vec![LexiData::Int(1), LexiData::Bulk(b"deep".to_vec())]),
            LexiData::Array(Vec::new()),
        ]),
        LexiData::Simple(SimpleString::Okay),
        LexiData::Error(b"boom".to_vec()),
    ]);
    assert_round_trips(depth3);
    assert_round_trips(LexiData::Array(Vec::new()));
}

#[test]
fn truncation_yields_incomplete_frame() {
    let values = vec![
        LexiData::Bulk(b"vince".to_vec()),
        LexiData::Int(-42069),
        LexiData::Double(b"13.37".to_vec()),
        LexiData::Simple(SimpleString::Pong),
        LexiData::Error(b"oops".to_vec()),
        LexiData::Array(vec![
            LexiData::Bulk(b"a".to_vec()),
            LexiData::Array(vec![LexiData::Int(7)]),
        ]),
    ];
    for v in values {
        let bytes = encode(&v);
        for n in 0..bytes.len() {
            let cut = &bytes[..n];
            assert_eq!(decode(cut).unwrap_err(), DecodeError::IncompleteFrame);
        }
    }
}

#[test]
fn rejection_unknown_simple_literal() {
    assert_eq!(
        decode(b"+MAYBE\r\n").unwrap_err(),
        DecodeError::UnknownSimpleLiteral
    );
}

#[test]
fn rejection_invalid_numeric_literal() {
    assert_eq!(
        decode(b":12x\r\n").unwrap_err(),
        DecodeError::InvalidNumericLiteral
    );
}

#[test]
fn rejection_illegal_sigil() {
    for lead in [b'%', b'!', 0u8, b'a', b'0'] {
        let mut frame = vec![lead];
        frame.extend_from_slice(b"1\r\n");
        assert_eq!(decode(&frame).unwrap_err(), DecodeError::IllegalSigil);
    }
}

#[test]
fn decode_of_ok_line() {
    match decode(b"+OK\r\n").unwrap() {
        LexiData::Simple(s) => assert_eq!(s, SimpleString::Okay),
        _ => unreachable!(),
    }
}

#[test]
fn decode_of_negative_int_line() {
    match decode(b":-42069\r\n").unwrap() {
        LexiData::Int(i) => assert_eq!(i, -42069),
        _ => unreachable!(),
    }
}

#[test]
fn decode_of_two_bulk_array() {
    match decode(b"*2\r\n$5\r\nvince\r\n$7\r\nis cool\r\n").unwrap() {
        LexiData::Array(items) => {
            assert_eq!(items.len(), 2);
            assert!(matches!(&items[0], LexiData::Bulk(b) if b == b"vince"));
            assert!(matches!(&items[1], LexiData::Bulk(b) if b == b"is cool"));
        },
        _ => unreachable!(),
    }
}

#[test]
fn decode_ignores_trailing_bytes() {
    match decode(b"+PONG\r\n:1\r\n").unwrap() {
        LexiData::Simple(s) => assert_eq!(s, SimpleString::Pong),
        _ => unreachable!(),
    }
}

#[test]
fn decode_of_empty_input_is_incomplete() {
    assert_eq!(decode(b"").unwrap_err(), DecodeError::IncompleteFrame);
}

#[test]
fn oversized_declared_lengths_are_incomplete() {
    assert_eq!(
        decode(b"$1000000000000000000000\r\nx\r\n").unwrap_err(),
        DecodeError::IncompleteFrame
    );
    assert_eq!(
        decode(b"*1000000000000000000000\r\n").unwrap_err(),
        DecodeError::IncompleteFrame
    );
}

#[test]
fn array_with_missing_elements_is_incomplete() {
    assert_eq!(
        decode(b"*3\r\n$1\r\na\r\n").unwrap_err(),
        DecodeError::IncompleteFrame
    );
}

#[test]
fn conversions_pick_the_matching_variant() {
    let v: LexiType = 5i64.into();
    assert!(matches!(v, LexiType::Int(5)));
    let v: LexiType = "vince".into();
    assert!(matches!(v, LexiType::BulkString(s) if s == "vince"));
    let d: LexiData = 7u8.into();
    assert!(matches!(d, LexiData::Int(7)));
    let d: LexiData = "is cool".into();
    assert!(matches!(d, LexiData::Bulk(b) if b == b"is cool"));
    let d: LexiData = String::from("owned").into();
    assert!(matches!(d, LexiData::Bulk(b) if b == b"owned"));
}
