//! The dump renderer: per row, the offset column, a token per byte, padding
//! that lines the printable column up, and the printable column; then a
//! summary line with the byte count.

use vstd::prelude::*;
use vstd::string::StringExecFns;
use vstd::utf8::is_ascii_chars;

use crate::buffer::page_bytes;
use crate::format::{Format, FormatError};
use crate::models::{Line, Page};
use crate::output::{
    append_ascii, ascii_cell, byte_token, offset_text, print_offset, push_byte_token,
};
use crate::text::{
    ascii_bytes, decimal, digit_count, lemma_digits_ascii, push_ascii, push_char, push_decimal,
};

verus! {

/// The tokens of a row's bytes, one after the other.
pub open spec fn tokens_column(bytes: Seq<u8>, format: Format, colorize: bool, prefix: bool) -> Seq<u8>
    decreases bytes.len(),
{
    if bytes.len() == 0 {
        Seq::empty()
    } else {
        tokens_column(bytes.drop_last(), format, colorize, prefix) + ascii_bytes(
            byte_token(bytes.last(), format, colorize, prefix),
        )
    }
}

/// The printable column of a row's bytes.
pub open spec fn ascii_column(bytes: Seq<u8>, colorize: bool) -> Seq<u8>
    decreases bytes.len(),
{
    if bytes.len() == 0 {
        Seq::empty()
    } else {
        ascii_column(bytes.drop_last(), colorize) + ascii_cell(bytes.last(), colorize)
    }
}

/// `n` spaces.
pub open spec fn spaces(n: nat) -> Seq<u8> {
    Seq::new(n, |i: int| 32u8)
}

/// The padding after a row of `len` bytes: five spaces per missing byte.
pub open spec fn row_padding(len: nat, column_width: u64) -> Seq<u8> {
    if len < column_width {
        spaces((5 * (column_width - len)) as nat)
    } else {
        Seq::empty()
    }
}

/// One row of the dump, for a row of `bytes` that starts at offset `start`.
pub open spec fn dump_row(
    bytes: Seq<u8>,
    start: nat,
    column_width: u64,
    format: Format,
    colorize: bool,
    prefix: bool,
) -> Seq<u8> {
    ascii_bytes(offset_text(start) + seq![':', ' ']) + tokens_column(bytes, format, colorize, prefix)
        + row_padding(bytes.len(), column_width) + ascii_column(bytes, colorize) + seq![10u8]
}

/// The rows of the dump, each at the offset where the rows before it end.
pub open spec fn dump_rows(
    lines: Seq<Line>,
    column_width: u64,
    format: Format,
    colorize: bool,
    prefix: bool,
) -> Seq<u8>
    decreases lines.len(),
{
    if lines.len() == 0 {
        Seq::empty()
    } else {
        dump_rows(lines.drop_last(), column_width, format, colorize, prefix) + dump_row(
            lines.last().hex_body@,
            page_bytes(lines.drop_last()).len(),
            column_width,
            format,
            colorize,
            prefix,
        )
    }
}

/// The summary line: `   bytes: ` and the byte count.
pub open spec fn summary_line(bytes: nat) -> Seq<u8> {
    ascii_bytes("   bytes: "@ + decimal(bytes) + seq!['\n'])
}

/// The whole dump of a page.
pub open spec fn dump_text(
    page: Page,
    column_width: u64,
    format: Format,
    colorize: bool,
    prefix: bool,
) -> Seq<u8> {
    dump_rows(page.body@, column_width, format, colorize, prefix) + summary_line(page.bytes as nat)
}

/// The bytes of the first rows are no more than the bytes of all rows.
proof fn lemma_prefix_bytes_le(lines: Seq<Line>, k: int)
    requires
        0 <= k <= lines.len(),
    ensures
        page_bytes(lines.take(k)).len() <= page_bytes(lines).len(),
    decreases lines.len(),
{
    if k < lines.len() {
        assert(lines.drop_last().take(k) =~= lines.take(k));
        lemma_prefix_bytes_le(lines.drop_last(), k);
    } else {
        assert(lines.take(k) =~= lines);
    }
}

/// Appends one row of the dump for `line`, which starts at offset `start`;
/// fails, for a non-empty row, when `format` has no rendering rule.
fn render_row(
    out: &mut Vec<u8>,
    line: &Line,
    start: u64,
    column_width: u64,
    format: Format,
    colorize: bool,
    prefix: bool,
) -> (r: Result<(), FormatError>)
    requires
        start + line.hex_body@.len() <= u64::MAX,
        column_width <= u64::MAX / 5,
    ensures
        match r {
            Ok(_) => (format.is_implemented() || line.hex_body@.len() == 0) && final(out)@ == old(out)@
                + dump_row(line.hex_body@, start as nat, column_width, format, colorize, prefix),
            Err(e) => !format.is_implemented() && line.hex_body@.len() > 0 && e
                == FormatError::Unimplemented(format),
        },
{
    print_offset(out, start);
    let ghost after_offset = out@;
    let mut ascii: Vec<u8> = Vec::new();
    let mut j: usize = 0;
    while j < line.hex_body.len()
        invariant
            j <= line.hex_body@.len(),
            out@ == after_offset + tokens_column(line.hex_body@.take(j as int), format, colorize, prefix),
            ascii@ == ascii_column(line.hex_body@.take(j as int), colorize),
            format.is_implemented() || j == 0,
        decreases line.hex_body@.len() - j,
    {
        let b = line.hex_body[j];
        match push_byte_token(out, b, format, colorize, prefix) {
            Ok(()) => {},
            Err(e) => {
                return Err(e);
            },
        }
        append_ascii(&mut ascii, b, colorize);
        proof {
            assert(line.hex_body@.take(j + 1).drop_last() =~= line.hex_body@.take(j as int));
        }
        j = j + 1;
    }
    proof {
        assert(line.hex_body@.take(j as int) =~= line.hex_body@);
    }
    let ghost after_tokens = out@;
    let len = line.hex_body.len() as u64;
    if len < column_width {
        let pad: u64 = 5 * (column_width - len);
        let mut k: u64 = 0;
        while k < pad
            invariant
                k <= pad,
                out@ == after_tokens + spaces(k as nat),
            decreases pad - k,
        {
            out.push(32u8);
            k = k + 1;
            assert(out@ =~= after_tokens + spaces(k as nat));
        }
    }
    let ghost after_padding = out@;
    assert(after_padding == after_tokens + row_padding(line.hex_body@.len(), column_width));
    let mut n: usize = 0;
    while n < ascii.len()
        invariant
            n <= ascii@.len(),
            out@ == after_padding + ascii@.take(n as int),
        decreases ascii@.len() - n,
    {
        out.push(ascii[n]);
        n = n + 1;
        assert(out@ =~= after_padding + ascii@.take(n as int));
    }
    out.push(10u8);
    proof {
        assert(ascii@.take(n as int) =~= ascii@);
        assert(out@ =~= old(out)@ + dump_row(line.hex_body@, start as nat, column_width, format, colorize, prefix));
    }
    Ok(())
}

/// Renders a page as a dump: for each row, the offset column, a token per
/// byte in `format`, padding up to `column_width` bytes, and the printable
/// column; then the summary line. Fails when a byte must be rendered in a
/// base that has no rendering rule.
pub fn render_dump(page: &Page, column_width: u64, format: Format, colorize: bool, prefix: bool) -> (r:
    Result<Vec<u8>, FormatError>)
    requires
        page_bytes(page.body@).len() <= u64::MAX,
        column_width <= u64::MAX / 5,
    ensures
        match r {
            Ok(out) => (format.is_implemented() || page_bytes(page.body@).len() == 0) && out@
                == dump_text(*page, column_width, format, colorize, prefix),
            Err(e) => !format.is_implemented() && page_bytes(page.body@).len() > 0 && e
                == FormatError::Unimplemented(format),
        },
{
    let mut out: Vec<u8> = Vec::new();
    let mut offset_counter: u64 = 0;
    let mut i: usize = 0;
    while i < page.body.len()
        invariant
            i <= page.body@.len(),
            page_bytes(page.body@).len() <= u64::MAX,
            column_width <= u64::MAX / 5,
            offset_counter == page_bytes(page.body@.take(i as int)).len(),
            out@ == dump_rows(page.body@.take(i as int), column_width, format, colorize, prefix),
            format.is_implemented() || page_bytes(page.body@.take(i as int)).len() == 0,
        decreases page.body@.len() - i,
    {
        let line = &page.body[i];
        proof {
            assert(page.body@.take(i + 1).drop_last() =~= page.body@.take(i as int));
            assert(page.body@.take(i + 1).last() == *line);
            lemma_prefix_bytes_le(page.body@, i + 1);
        }
        match render_row(&mut out, line, offset_counter, column_width, format, colorize, prefix) {
            Ok(()) => {},
            Err(e) => {
                return Err(e);
            },
        }
        offset_counter = offset_counter + line.hex_body.len() as u64;
        i = i + 1;
    }
    proof {
        assert(page.body@.take(i as int) =~= page.body@);
    }
    let mut s = String::from_str("   bytes: ");
    push_decimal(&mut s, page.bytes);
    push_char(&mut s, '\n');
    proof {
        reveal_strlit("   bytes: ");
        lemma_digits_ascii(page.bytes as nat, 10, digit_count(page.bytes as nat, 10), false);
        assert(is_ascii_chars(s@));
    }
    push_ascii(&mut out, s.as_str());
    Ok(out)
}

} // verus!
