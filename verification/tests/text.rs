use rlox::text::{push_bytes, push_decimal, push_padded, push_text};

fn padded(n: u64, width: usize, fill: u8) -> String {
    let mut out = Vec::new();
    push_padded(&mut out, n, width, fill);
    String::from_utf8(out).unwrap()
}

#[test]
fn decimal_numerals() {
    for n in [0u64, 7, 10, 42, 99, 100, 12345, u32::MAX as u64, u64::MAX] {
        let mut out = b"n=".to_vec();
        push_decimal(&mut out, n);
        assert_eq!(String::from_utf8(out).unwrap(), format!("n={}", n));
    }
}

#[test]
fn padding_fills_up_to_the_width() {
    assert_eq!(padded(0, 4, b'0'), "0000");
    assert_eq!(padded(7, 4, b'0'), "0007");
    assert_eq!(padded(123, 4, b' '), " 123");
    assert_eq!(padded(8, 2, b' '), " 8");
    assert_eq!(padded(39, 2, b' '), "39");
    assert_eq!(padded(5, 0, b' '), "5");
    assert_eq!(padded(5, 1, b' '), "5");
}

#[test]
fn padding_never_cuts_a_numeral() {
    assert_eq!(padded(9999, 4, b'0'), "9999");
    assert_eq!(padded(10000, 4, b'0'), "10000");
    assert_eq!(padded(123456, 4, b' '), "123456");
    assert_eq!(padded(u64::MAX, 4, b' '), "18446744073709551615");
    for n in [0u64, 9, 10, 999, 1000, 65535, 4294967295] {
        assert_eq!(padded(n, 4, b'0'), format!("{:04}", n));
        assert_eq!(padded(n, 4, b' '), format!("{:4}", n));
        assert_eq!(padded(n, 2, b' '), format!("{:2}", n));
    }
}

#[test]
fn text_and_bytes_are_appended() {
    let mut out = Vec::new();
    push_text(&mut out, "== ");
    push_bytes(&mut out, b"name");
    push_text(&mut out, " ==\n");
    push_text(&mut out, "");
    push_text(&mut out, "é");
    assert_eq!(out, "== name ==\né".as_bytes());
}
