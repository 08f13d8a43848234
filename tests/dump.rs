use hx::{buf_to_array, render_dump, Format, FormatError};

#[test]
fn dump_of_three_digits() {
    let page = buf_to_array(b"012", 0, 10);
    let out = render_dump(&page, 10, Format::LowerHex, false, true).unwrap();
    assert_eq!(
        String::from_utf8(out).unwrap(),
        "0x000000: 0x30 0x31 0x32                                    012\n   bytes: 3\n"
    );
}

#[test]
fn dump_of_nothing_has_an_empty_row() {
    let page = buf_to_array(b"", 0, 2);
    let out = render_dump(&page, 2, Format::LowerHex, false, true).unwrap();
    assert_eq!(
        String::from_utf8(out).unwrap(),
        format!("0x000000: {}\n   bytes: 0\n", " ".repeat(10))
    );
}

#[test]
fn dump_rows_carry_running_offsets() {
    let page = buf_to_array(b"Hello, world", 0, 8);
    let out = render_dump(&page, 8, Format::UpperHex, false, false).unwrap();
    assert_eq!(
        String::from_utf8(out).unwrap(),
        format!(
            "0x000000: 48 65 6C 6C 6F 2C 20 77 Hello, w\n0x000008: 6F 72 6C 64 {}orld\n   bytes: 12\n",
            " ".repeat(20)
        )
    );
}

#[test]
fn dump_full_row_is_followed_by_empty_row() {
    let page = buf_to_array(&[0, 255], 0, 2);
    let out = render_dump(&page, 2, Format::Octal, false, false).unwrap();
    assert_eq!(
        String::from_utf8(out).unwrap(),
        format!("0x000000: 0000 0377 ..\n0x000002: {}\n   bytes: 2\n", " ".repeat(10))
    );
}

#[test]
fn dump_in_unimplemented_base_fails() {
    let page = buf_to_array(b"a", 0, 10);
    assert!(matches!(
        render_dump(&page, 10, Format::Pointer, false, true),
        Err(FormatError::Unimplemented(Format::Pointer))
    ));
}

#[test]
fn dump_of_nothing_in_unimplemented_base_succeeds() {
    let page = buf_to_array(b"", 0, 4);
    assert!(render_dump(&page, 4, Format::Unknown, false, true).is_ok());
}

#[test]
fn coloured_dump_colours_both_columns() {
    let page = buf_to_array(&[0], 0, 1);
    let out = render_dump(&page, 1, Format::LowerHex, true, true).unwrap();
    assert_eq!(
        String::from_utf8(out).unwrap(),
        "0x000000: \x1b[38;5;22m0x00\x1b[0m \x1b[38;5;22m.\x1b[0m\n0x000001:      \n   bytes: 1\n"
    );
}
