//! Rendering the parts of a dump: the offset column, byte tokens in a base,
//! the printable-character column and terminal colours.

use vstd::prelude::*;
use vstd::utf8::is_ascii_chars;

use crate::format::{Format, FormatError};
use crate::text::{
    ascii_bytes, count_digits, decimal, digit_count, digits, lemma_digits_ascii, push_ascii,
    push_char, push_digits,
};

verus! {

/// `std::io::Error`, carried opaquely: it is what `print_byte` returns when
/// a byte cannot be rendered.
#[verifier::external_type_specification]
#[verifier::external_body]
pub struct ExIoError(std::io::Error);

/// An offset as text: `0x` and at least six lower-case hexadecimal digits,
/// zero-padded.
pub open spec fn offset_text(v: nat) -> Seq<char> {
    let n = digit_count(v, 16);
    seq!['0', 'x'] + digits(v, 16, if n > 6 { n } else { 6 }, false)
}

/// The terminal colour of a byte: the byte itself, but for zero, which gets
/// colour 0x16 so that it stays visible.
pub open spec fn color_of(b: u8) -> u8 {
    if b == 0 {
        0x16
    } else {
        b
    }
}

/// The escape sequence that selects foreground colour `n` of the 256-colour
/// palette.
pub open spec fn fixed_colour_start(n: u8) -> Seq<char> {
    seq!['\x1b', '[', '3', '8', ';', '5', ';'] + decimal(n as nat) + seq!['m']
}

/// The escape sequence that resets all styles.
pub open spec fn colour_reset() -> Seq<char> {
    seq!['\x1b', '[', '0', 'm']
}

/// `text` in foreground colour `n`.
pub open spec fn painted(n: u8, text: Seq<char>) -> Seq<char> {
    fixed_colour_start(n) + text + colour_reset()
}

/// The token of one byte in the numeric column: the byte in `format`,
/// coloured when `colorize` holds, then a space.
pub open spec fn byte_token(b: u8, format: Format, colorize: bool, prefix: bool) -> Seq<char> {
    let t = format.spec_format(b, prefix);
    (if colorize {
        painted(color_of(b), t)
    } else {
        t
    }) + seq![' ']
}

/// A byte as it shows in the printable column: itself from 32 to 126, else
/// a dot.
pub open spec fn printable(b: u8) -> u8 {
    if 31 < b && b < 127 {
        b
    } else {
        46
    }
}

/// The bytes that one byte adds to the printable column.
pub open spec fn ascii_cell(b: u8, colorize: bool) -> Seq<u8> {
    if colorize {
        ascii_bytes(painted(color_of(b), seq![printable(b) as char]))
    } else {
        seq![printable(b)]
    }
}

/// Relies on ansi_term: `Style::new().fg(Colour::Fixed(n)).paint(text)`
/// displays as `ESC [ 38;5;n m`, the text, then `ESC [ 0 m`.
#[verifier::external_body]
fn paint_fixed(colour: u8, text: &str) -> (r: String)
    ensures
        r@ == painted(colour, text@),
{
    ansi_term::Style::new().fg(ansi_term::Colour::Fixed(colour)).paint(text).to_string()
}

/// Relies on `std::io::Error::new`: an I/O error of kind `InvalidInput`
/// that carries the message.
#[verifier::external_body]
fn invalid_input(message: String) -> std::io::Error {
    std::io::Error::new(std::io::ErrorKind::InvalidInput, message)
}

/// A coloured ASCII text is ASCII.
proof fn lemma_painted_ascii(n: u8, text: Seq<char>)
    requires
        is_ascii_chars(text),
    ensures
        is_ascii_chars(painted(n, text)),
{
    lemma_digits_ascii(n as nat, 10, digit_count(n as nat, 10), false);
    let p = painted(n, text);
    assert forall|i: int| 0 <= i < p.len() implies '\0' <= #[trigger] p[i] <= '\u{7f}' by {
        let start = fixed_colour_start(n);
        let d = decimal(n as nat);
        if i < 7 {
        } else if i < 7 + d.len() {
            assert(p[i] == d[i - 7]);
        } else if i < start.len() {
        } else if i < start.len() + text.len() {
            assert(p[i] == text[i - start.len()]);
        } else {
        }
    }
}

/// Formats an offset as `0x` and at least six hexadecimal digits:
/// `offset(0x42) == "0x000042"`.
pub fn offset(b: u64) -> (r: String)
    ensures
        r@ == offset_text(b as nat),
{
    let n = count_digits(b, 16);
    let width = if n > 6 {
        n
    } else {
        6
    };
    let mut s = String::new();
    push_char(&mut s, '0');
    push_char(&mut s, 'x');
    push_digits(&mut s, b, 16, width, false);
    assert(s@ =~= offset_text(b as nat));
    s
}

/// Writes the offset column of a row: the offset, a colon and a space.
pub fn print_offset(w: &mut Vec<u8>, b: u64)
    ensures
        final(w)@ == old(w)@ + ascii_bytes(offset_text(b as nat) + seq![':', ' ']),
{
    let mut s = offset(b);
    push_char(&mut s, ':');
    push_char(&mut s, ' ');
    proof {
        let n = digit_count(b as nat, 16);
        lemma_digits_ascii(b as nat, 16, if n > 6 { n } else { 6 }, false);
        assert(s@ =~= offset_text(b as nat) + seq![':', ' ']);
    }
    push_ascii(w, s.as_str());
}

/// The colour of a byte, as `color_of` gives it.
pub fn byte_to_color(b: u8) -> (r: u8)
    ensures
        r == color_of(b),
{
    let mut color: u8 = b;
    if color < 1 {
        color = 0x16;
    }
    color
}

/// Appends the token of one byte; fails, appending nothing, for a base with
/// no rendering rule.
pub(crate) fn push_byte_token(w: &mut Vec<u8>, b: u8, format: Format, colorize: bool, prefix: bool) -> (r:
    Result<(), FormatError>)
    ensures
        match r {
            Ok(_) => format.is_implemented() && final(w)@ == old(w)@ + ascii_bytes(
                byte_token(b, format, colorize, prefix),
            ),
            Err(e) => !format.is_implemented() && e == FormatError::Unimplemented(format)
                && final(w)@ == old(w)@,
        },
{
    let t = match format.format(b, prefix) {
        Ok(t) => t,
        Err(e) => {
            return Err(e);
        },
    };
    proof {
        lemma_digits_ascii(b as nat, format.radix(), format.width(), format == Format::UpperHex);
        assert(is_ascii_chars(t@));
    }
    let mut token = if colorize {
        let color = byte_to_color(b);
        proof {
            lemma_painted_ascii(color, t@);
        }
        paint_fixed(color, t.as_str())
    } else {
        t
    };
    push_char(&mut token, ' ');
    push_ascii(w, token.as_str());
    Ok(())
}

/// Writes the token of one byte: the byte in `format` (with its base prefix
/// when `prefix` holds), coloured when `colorize` holds, then a space. A
/// base with no rendering rule gives an error of kind `InvalidInput` and
/// writes nothing.
pub fn print_byte(w: &mut Vec<u8>, b: u8, format: Format, colorize: bool, prefix: bool) -> (r:
    Result<(), std::io::Error>)
    ensures
        format.is_implemented() ==> r is Ok && final(w)@ == old(w)@ + ascii_bytes(
            byte_token(b, format, colorize, prefix),
        ),
        !format.is_implemented() ==> r is Err && final(w)@ == old(w)@,
{
    match push_byte_token(w, b, format, colorize, prefix) {
        Ok(()) => Ok(()),
        Err(e) => Err(invalid_input(e.message())),
    }
}

/// Appends a byte to the printable column: the byte itself from 32 to 126,
/// else a dot, coloured when `colorize` holds.
pub fn append_ascii(target: &mut Vec<u8>, b: u8, colorize: bool)
    ensures
        final(target)@ == old(target)@ + ascii_cell(b, colorize),
{
    let c: u8 = if b > 31 && b < 127 {
        b
    } else {
        46
    };
    if colorize {
        let mut s = String::new();
        push_char(&mut s, c as char);
        let color = byte_to_color(b);
        proof {
            assert(s@ =~= seq![printable(b) as char]);
            lemma_painted_ascii(color, s@);
        }
        let p = paint_fixed(color, s.as_str());
        push_ascii(target, p.as_str());
    } else {
        target.push(c);
        assert(target@ =~= old(target)@ + ascii_cell(b, colorize));
    }
}

} // verus!
