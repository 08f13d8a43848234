use hx::{Format, FormatError};
use std::error::Error;

/// Test octal format output with and without prefix
#[test]
fn format_test_hex_octal() {
    let b: u8 = 0x6;

    //with prefix
    assert_eq!(Format::Octal.format(b, true).unwrap(), "0o0006");
    assert_eq!(
        Format::Octal.format(b, true).unwrap(),
        format!("{:#06o}", b)
    );

    //without prefix
    assert_eq!(Format::Octal.format(b, false).unwrap(), "0006");
    assert_eq!(
        Format::Octal.format(b, false).unwrap(),
        format!("{:04o}", b)
    );
}

/// Test lower hex format output with and without prefix
#[test]
fn format_test_hex_lower_hex() {
    let b: u8 = u8::MAX; // 255

    //with prefix
    assert_eq!(Format::LowerHex.format(b, true).unwrap(), "0xff");
    assert_eq!(
        Format::LowerHex.format(b, true).unwrap(),
        format!("{:#04x}", b)
    );

    //without prefix
    assert_eq!(Format::LowerHex.format(b, false).unwrap(), "ff");
    assert_eq!(
        Format::LowerHex.format(b, false).unwrap(),
        format!("{:02x}", b)
    );
}

/// Test upper hex format output with and without prefix
#[test]
fn format_test_hex_upper_hex() {
    let b: u8 = u8::MAX;

    //with prefix
    assert_eq!(Format::UpperHex.format(b, true).unwrap(), "0xFF");
    assert_eq!(
        Format::UpperHex.format(b, true).unwrap(),
        format!("{:#04X}", b)
    );

    // without prefix
    assert_eq!(Format::UpperHex.format(b, false).unwrap(), "FF");
    assert_eq!(
        Format::UpperHex.format(b, false).unwrap(),
        format!("{:02X}", b)
    );
}

/// Test binary format output with and without prefix
#[test]
fn format_test_hex_binary() {
    let b: u8 = u8::MAX;

    // with prefix
    assert_eq!(Format::Binary.format(b, true).unwrap(), "0b11111111");
    assert_eq!(
        Format::Binary.format(b, true).unwrap(),
        format!("{:#010b}", b)
    );

    // without prefix
    assert_eq!(Format::Binary.format(b, false).unwrap(), "11111111");
    assert_eq!(
        Format::Binary.format(b, false).unwrap(),
        format!("{:08b}", b)
    );
}

/// Test `FormatError` message
#[test]
fn test_format_error_display() {
    let error = FormatError::Unimplemented(Format::Pointer);
    let error_string = error.message();
    assert!(error_string.contains("not implemented"));
    assert!(error_string.contains("Pointer"));
}

/// Test `FormatError` can travel as a boxed error
#[test]
fn test_format_error_is_error() {
    let error = FormatError::Unimplemented(Format::Unknown);
    let _boxed: Box<dyn Error> = Box::from(error.message());
}

/// Test `Format::format` returns error for `Pointer` format
#[test]
fn test_format_error_pointer_with_prefix() {
    let result = Format::Pointer.format(0x42, true);
    assert!(result.is_err());
    match result {
        Err(FormatError::Unimplemented(Format::Pointer)) => {
            // Expected error
        }
        _ => panic!("Expected FormatError::Unimplemented(Format::Pointer)"),
    }
}

/// Test `Format::format` returns error for `Pointer` format without prefix
#[test]
fn test_format_error_pointer_without_prefix() {
    let result = Format::Pointer.format(0x42, false);
    assert!(result.is_err());
    match result {
        Err(FormatError::Unimplemented(Format::Pointer)) => {
            // Expected error
        }
        _ => panic!("Expected FormatError::Unimplemented(Format::Pointer)"),
    }
}

/// Test `Format::format` returns error for `LowerExp` format
#[test]
fn test_format_error_lower_exp() {
    let result = Format::LowerExp.format(0xFF, true);
    assert!(result.is_err());
    assert!(matches!(
        result,
        Err(FormatError::Unimplemented(Format::LowerExp))
    ));
}

/// Test `Format::format` returns error for `UpperExp` format
#[test]
fn test_format_error_upper_exp() {
    let result = Format::UpperExp.format(0xFF, false);
    assert!(result.is_err());
    assert!(matches!(
        result,
        Err(FormatError::Unimplemented(Format::UpperExp))
    ));
}

/// Test `Format::format` returns error for `Unknown` format
#[test]
fn test_format_error_unknown() {
    let result = Format::Unknown.format(0x00, true);
    assert!(result.is_err());
    assert!(matches!(
        result,
        Err(FormatError::Unimplemented(Format::Unknown))
    ));
}

/// Test all unimplemented formats return errors
#[test]
fn test_all_unimplemented_formats() {
    let unimplemented = vec![
        Format::Pointer,
        Format::LowerExp,
        Format::UpperExp,
        Format::Unknown,
    ];

    for format in unimplemented {
        let result_with_prefix = format.format(0x42, true);
        let result_without_prefix = format.format(0x42, false);

        assert!(
            result_with_prefix.is_err(),
            "Format {:?} should return error with prefix",
            format
        );
        assert!(
            result_without_prefix.is_err(),
            "Format {:?} should return error without prefix",
            format
        );
    }
}

/// Test all implemented formats return Ok
#[test]
fn test_all_implemented_formats() {
    let implemented = vec![
        Format::Octal,
        Format::LowerHex,
        Format::UpperHex,
        Format::Binary,
    ];

    for format in implemented {
        let result_with_prefix = format.format(0x42, true);
        let result_without_prefix = format.format(0x42, false);

        assert!(
            result_with_prefix.is_ok(),
            "Format {:?} should return Ok with prefix",
            format
        );
        assert!(
            result_without_prefix.is_ok(),
            "Format {:?} should return Ok without prefix",
            format
        );
    }
}

/// Test format with edge case values
#[test]
fn test_format_edge_cases() {
    // Test zero
    assert_eq!(Format::LowerHex.format(0, true).unwrap(), "0x00");
    assert_eq!(Format::LowerHex.format(0, false).unwrap(), "00");
    assert_eq!(Format::Octal.format(0, true).unwrap(), "0o0000");
    assert_eq!(Format::Octal.format(0, false).unwrap(), "0000");
    assert_eq!(Format::Binary.format(0, true).unwrap(), "0b00000000");
    assert_eq!(Format::Binary.format(0, false).unwrap(), "00000000");

    // Test maximum value
    assert_eq!(Format::LowerHex.format(u8::MAX, true).unwrap(), "0xff");
    assert_eq!(Format::LowerHex.format(u8::MAX, false).unwrap(), "ff");
    assert_eq!(Format::UpperHex.format(u8::MAX, true).unwrap(), "0xFF");
    assert_eq!(Format::UpperHex.format(u8::MAX, false).unwrap(), "FF");
}

#[test]
fn documented_examples_render_exactly() {
    assert_eq!(Format::Octal.format(6, true).unwrap(), "0o0006");
    assert_eq!(Format::LowerHex.format(255, false).unwrap(), "ff");
    assert_eq!(Format::Binary.format(255, true).unwrap(), "0b11111111");
    assert_eq!(Format::Octal.format(64, true).unwrap(), "0o0100");
    assert_eq!(Format::Binary.format(42, false).unwrap(), "00101010");
    assert_eq!(Format::Octal.format(255, false).unwrap(), "0377");
}

#[test]
fn every_byte_matches_std_formatting() {
    for b in 0..=255u8 {
        assert_eq!(Format::Octal.format(b, true).unwrap(), format!("{:#06o}", b));
        assert_eq!(Format::Octal.format(b, false).unwrap(), format!("{:04o}", b));
        assert_eq!(Format::LowerHex.format(b, true).unwrap(), format!("{:#04x}", b));
        assert_eq!(Format::UpperHex.format(b, false).unwrap(), format!("{:02X}", b));
        assert_eq!(Format::Binary.format(b, true).unwrap(), format!("{:#010b}", b));
    }
}

#[test]
fn error_message_names_the_base() {
    let e = FormatError::Unimplemented(Format::LowerExp);
    assert_eq!(e.message(), "format LowerExp is not implemented");
    assert_eq!(Format::UpperHex.name(), "UpperHex");
}

#[test]
fn codes_select_bases() {
    assert_eq!(Format::from_code("o"), Format::Octal);
    assert_eq!(Format::from_code("x"), Format::LowerHex);
    assert_eq!(Format::from_code("X"), Format::UpperHex);
    assert_eq!(Format::from_code("p"), Format::Pointer);
    assert_eq!(Format::from_code("b"), Format::Binary);
    assert_eq!(Format::from_code("e"), Format::LowerExp);
    assert_eq!(Format::from_code("E"), Format::UpperExp);
    assert_eq!(Format::from_code("q"), Format::Unknown);
    assert_eq!(Format::from_code("xx"), Format::Unknown);
    assert_eq!(Format::from_code(""), Format::Unknown);
}
