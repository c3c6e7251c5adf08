use lexi_client::lexi_data::{LexiData, SimpleString};
use lexi_client::parser::Parser;
use lexi_client::wire::DecodeError;

struct ParserTest<'a, T> {
    input: &'a [u8],
    exp: T,
}

#[test]
fn it_can_parse_strings() {
    let tests = [
        ParserTest {
            input: b"$3\r\nfoo\r\n",
            exp: "foo",
        },
        ParserTest {
            input: b"$7\r\nfoo\nbar\r\n",
            exp: "foo\nbar",
        },
    ];

    for test in tests {
        let mut p = Parser::new(test.input);
        let data = p.parse().unwrap();
        assert!(matches!(data, LexiData::Bulk(_)));
        match data {
            LexiData::Bulk(s) => assert_eq!(test.exp, String::from_utf8(s).unwrap()),
            _ => unreachable!(),
        }
    }
}

#[test]
fn it_can_parse_simple_strings() {
    let tests = [
        ParserTest {
            input: b"+OK\r\n",
            exp: SimpleString::Okay,
        },
        ParserTest {
            input: b"+PONG\r\n",
            exp: SimpleString::Pong,
        },
        ParserTest {
            input: b"+NONE\r\n",
            exp: SimpleString::Nothing,
        },
    ];

    for test in tests {
        let mut p = Parser::new(test.input);
        let data = p.parse().unwrap();
        assert!(matches!(data, LexiData::Simple(_)));
        match data {
            LexiData::Simple(s) => assert_eq!(test.exp, s),
            _ => unreachable!(),
        }
    }
}

#[test]
fn it_can_parse_integers() {
    let tests = [
        ParserTest {
            input: b":12345\r\n",
            exp: 12345,
        },
        ParserTest {
            input: b":-12345\r\n",
            exp: -12345,
        },
    ];

    for test in tests {
        let mut p = Parser::new(test.input);
        let data = p.parse().unwrap();
        assert!(matches!(data, LexiData::Int(_)));
        match data {
            LexiData::Int(i) => assert_eq!(test.exp, i),
            _ => unreachable!(),
        }
    }
}

#[test]
fn parse_error() {
    let tests = [
        ParserTest {
            input: b"-Invalid command\r\n",
            exp: "Invalid command",
        },
        ParserTest {
            input: b"-failed to set\r\n",
            exp: "failed to set",
        },
    ];

    for test in tests {
        let mut p = Parser::new(test.input);
        let data = p.parse().unwrap();
        assert!(matches!(data, LexiData::Error(_)));
        match data {
            LexiData::Error(e) => assert_eq!(test.exp, String::from_utf8(e).unwrap()),
            _ => unreachable!(),
        }
    }
}

#[test]
fn parse_double() {
    let tests = [
        ParserTest {
            input: b",1337.1337\r\n",
            exp: 1337.1337 as f64,
        },
        ParserTest {
            input: b",1337.0\r\n",
            exp: 1337.0 as f64,
        },
        ParserTest {
            input: b",1337\r\n",
            exp: 1337.0 as f64,
        },
    ];

    for test in tests {
        let mut p = Parser::new(test.input);
        let data = p.parse().unwrap();
        assert!(matches!(data, LexiData::Double(_)));
        match data {
            LexiData::Double(d) => {
                let text = String::from_utf8(d).unwrap();
                assert_eq!(test.exp, text.parse::<f64>().unwrap());
            },
            _ => assert!(false),
        }
    }
}

#[test]
fn parse_extreme_integers() {
    let mut p = Parser::new(b":-9223372036854775808\r\n");
    match p.parse().unwrap() {
        LexiData::Int(i) => assert_eq!(i, i64::MIN),
        _ => unreachable!(),
    }
    let mut p = Parser::new(b":9223372036854775807\r\n");
    match p.parse().unwrap() {
        LexiData::Int(i) => assert_eq!(i, i64::MAX),
        _ => unreachable!(),
    }
}

#[test]
fn parse_rejects_out_of_range_integers() {
    let mut p = Parser::new(b":9223372036854775808\r\n");
    assert_eq!(p.parse().unwrap_err(), DecodeError::InvalidNumericLiteral);
    let mut p = Parser::new(b":-9223372036854775809\r\n");
    assert_eq!(p.parse().unwrap_err(), DecodeError::InvalidNumericLiteral);
}

#[test]
fn parse_accepts_leading_zeros_and_negative_zero() {
    let mut p = Parser::new(b":007\r\n");
    match p.parse().unwrap() {
        LexiData::Int(i) => assert_eq!(i, 7),
        _ => unreachable!(),
    }
    let mut p = Parser::new(b":-0\r\n");
    match p.parse().unwrap() {
        LexiData::Int(i) => assert_eq!(i, 0),
        _ => unreachable!(),
    }
}

#[test]
fn parse_rejects_malformed_doubles() {
    for input in [&b",12.\r\n"[..], b",.5\r\n", b",1.2.3\r\n", b",\r\n"] {
        let mut p = Parser::new(input);
        assert_eq!(p.parse().unwrap_err(), DecodeError::InvalidNumericLiteral);
    }
}

#[test]
fn parse_rejects_negative_lengths() {
    let mut p = Parser::new(b"$-1\r\n");
    assert_eq!(p.parse().unwrap_err(), DecodeError::NegativeLength);
    let mut p = Parser::new(b"*-1\r\n");
    assert_eq!(p.parse().unwrap_err(), DecodeError::NegativeLength);
}

#[test]
fn parse_rejects_unterminated_frames() {
    let mut p = Parser::new(b"$3\r\nfooXY");
    assert_eq!(p.parse().unwrap_err(), DecodeError::UnterminatedFrame);
    let mut p = Parser::new(b"$3x\r\nfoo\r\n");
    assert_eq!(p.parse().unwrap_err(), DecodeError::UnterminatedFrame);
}
