use hx::{offset, Format, Line};

#[test]
fn tests_test_offset() {
    let b: u64 = 0x6;
    assert_eq!(offset(b), "0x000006");
    assert_eq!(offset(b), format!("{:#08x}", b));
}

/// hex octal, takes u8
#[test]
fn tests_test_hex_octal() {
    let b: u8 = 0x6;

    //with prefix
    assert_eq!(Format::Octal.format(b, true).unwrap(), "0o0006");
    assert_eq!(Format::Octal.format(b, true).unwrap(), format!("{:#06o}", b));

    //without prefix
    assert_eq!(Format::Octal.format(b, false).unwrap(), "0006");
    assert_eq!(Format::Octal.format(b, false).unwrap(), format!("{:04o}", b));
}

/// hex lower hex, takes u8
#[test]
fn tests_test_hex_lower_hex() {
    let b: u8 = <u8>::max_value(); // 255

    //with prefix
    assert_eq!(Format::LowerHex.format(b, true).unwrap(), "0xff");
    assert_eq!(Format::LowerHex.format(b, true).unwrap(), format!("{:#04x}", b));

    //without prefix
    assert_eq!(Format::LowerHex.format(b, false).unwrap(), "ff");
    assert_eq!(Format::LowerHex.format(b, false).unwrap(), format!("{:02x}", b));
}

/// hex upper hex, takes u8
#[test]
fn tests_test_hex_upper_hex() {
    let b: u8 = <u8>::max_value();

    //with prefix
    assert_eq!(Format::UpperHex.format(b, true).unwrap(), "0xFF");
    assert_eq!(Format::UpperHex.format(b, true).unwrap(), format!("{:#04X}", b));

    // without prefix
    assert_eq!(Format::UpperHex.format(b, false).unwrap(), "FF");
    assert_eq!(Format::UpperHex.format(b, false).unwrap(), format!("{:02X}", b));
}

/// hex binary, takes u8
#[test]
fn tests_test_hex_binary() {
    let b: u8 = <u8>::max_value();

    // with prefix
    assert_eq!(Format::Binary.format(b, true).unwrap(), "0b11111111");
    assert_eq!(Format::Binary.format(b, true).unwrap(), format!("{:#010b}", b));

    // without prefix
    assert_eq!(Format::Binary.format(b, false).unwrap(), "11111111");
    assert_eq!(Format::Binary.format(b, false).unwrap(), format!("{:08b}", b));
}

#[test]
fn tests_test_line_struct() {
    let mut ascii_line: Line = Line::new();
    ascii_line.ascii.push(b'.');
    assert_eq!(ascii_line.ascii[0], b'.');
    assert_eq!(ascii_line.offset, 0x0);
}
