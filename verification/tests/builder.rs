use lexi_client::builder::Builder;

#[test]
fn builder_can_add_strings() {
    let buf = Builder::new().add_bulk("vince").out();
    let buf_str = String::from_utf8(buf).unwrap();
    assert_eq!(buf_str, "$5\r\nvince\r\n");
}

#[test]
fn bulilder_can_add_arrays() {
    let buf = Builder::new()
        .add_arr(2)
        .add_bulk("vince")
        .add_bulk("is cool")
        .out();
    let buf_str = String::from_utf8(buf).unwrap();
    assert_eq!(buf_str, "*2\r\n$5\r\nvince\r\n$7\r\nis cool\r\n");
}

#[test]
fn builder_can_add_integers() {
    let buf = Builder::new().add_int(42069).out();
    let t = vec![b':', b'4', b'2', b'0', b'6', b'9', b'\r', b'\n'];
    assert_eq!(t, buf);
}

#[test]
fn builder_can_add_doubles() {
    let buf = Builder::new()
        .add_double_text(&(1337.1337f64).to_string())
        .out();
    let t = vec![
        b',', b'1', b'3', b'3', b'7', b'.', b'1', b'3', b'3', b'7', b'\r', b'\n',
    ];
    assert_eq!(buf, t);
}

#[test]
fn builder_can_add_ping_and_reset() {
    let buf = Builder::new().add_ping().out();
    assert_eq!(String::from_utf8(buf).unwrap(), "+PING\r\n");
    let buf = Builder::new().add_bulk("junk").reset().add_int(-1).out();
    assert_eq!(String::from_utf8(buf).unwrap(), ":-1\r\n");
}

#[test]
fn builder_can_add_extreme_integers() {
    let buf = Builder::new().add_int(i64::MIN).out();
    assert_eq!(
        String::from_utf8(buf).unwrap(),
        ":-9223372036854775808\r\n"
    );
    let buf = Builder::new().add_int(i64::MAX).out();
    assert_eq!(String::from_utf8(buf).unwrap(), ":9223372036854775807\r\n");
    let buf = Builder::new().add_int(0).out();
    assert_eq!(String::from_utf8(buf).unwrap(), ":0\r\n");
}

#[test]
fn builder_can_add_empty_bulk() {
    let buf = Builder::new().add_bulk("").out();
    assert_eq!(String::from_utf8(buf).unwrap(), "$0\r\n\r\n");
}
