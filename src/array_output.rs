//! The array renderer: a page as an array literal of one of several
//! programming languages, chosen by a one-letter code.

use vstd::prelude::*;
use vstd::string::{StrSliceExecFns, StringExecFns};

use crate::buffer::page_bytes;
use crate::format::Format;
use crate::models::{Line, Page};
use crate::text::{decimal, push_char, push_decimal};

verus! {

/// The opening line for language code `code` and a page of `bytes` bytes:
/// `r` Rust, `c` C, `g` Go, `p` Python, `k` Kotlin, `j` Java, `s` Swift,
/// `f` F#; any other code gives a line that says so.
pub open spec fn array_header(code: Seq<char>, bytes: nat) -> Seq<char> {
    (if code == seq!['r'] {
        "let ARRAY: [u8; "@ + decimal(bytes) + "] = ["@
    } else if code == seq!['c'] {
        "unsigned char ARRAY["@ + decimal(bytes) + "] = {"@
    } else if code == seq!['g'] {
        "a := ["@ + decimal(bytes) + "]byte{"@
    } else if code == seq!['p'] {
        "a = ["@
    } else if code == seq!['k'] {
        "val a = byteArrayOf("@
    } else if code == seq!['j'] {
        "byte[] a = new byte[]{"@
    } else if code == seq!['s'] {
        "let a: [UInt8] = ["@
    } else if code == seq!['f'] {
        "let a = [|"@
    } else {
        "unknown array format"@
    }) + seq!['\n']
}

/// The closing line for language code `code`.
pub open spec fn array_footer(code: Seq<char>) -> Seq<char> {
    (if code == seq!['r'] {
        "];"@
    } else if code == seq!['c'] || code == seq!['j'] {
        "};"@
    } else if code == seq!['g'] {
        "}"@
    } else if code == seq!['p'] || code == seq!['s'] {
        "]"@
    } else if code == seq!['k'] {
        ")"@
    } else if code == seq!['f'] {
        "|]"@
    } else {
        "unknown array format"@
    }) + seq!['\n']
}

/// One byte of the array: `0x` and two lower-case hexadecimal digits, with
/// `uy` after it for F#, then the separator (`, `, or `; ` for F#), which
/// the last byte of the page leaves out but for Go.
pub open spec fn array_token(code: Seq<char>, b: u8, is_last: bool) -> Seq<char> {
    let hex = Format::LowerHex.spec_format(b, true);
    let fsharp = code == seq!['f'];
    if is_last && code != seq!['g'] {
        if fsharp {
            hex + seq!['u', 'y']
        } else {
            hex
        }
    } else if fsharp {
        hex + seq!['u', 'y', ';', ' ']
    } else {
        hex + seq![',', ' ']
    }
}

/// The tokens of a row's bytes; the row starts after `start` bytes of a
/// page of `total` bytes.
pub open spec fn array_tokens(code: Seq<char>, bytes: Seq<u8>, start: nat, total: nat) -> Seq<char>
    decreases bytes.len(),
{
    if bytes.len() == 0 {
        Seq::empty()
    } else {
        array_tokens(code, bytes.drop_last(), start, total) + array_token(
            code,
            bytes.last(),
            start + bytes.len() == total,
        )
    }
}

/// The rows of the array, each indented by four spaces on a line of its own.
pub open spec fn array_rows(code: Seq<char>, lines: Seq<Line>, total: nat) -> Seq<char>
    decreases lines.len(),
{
    if lines.len() == 0 {
        Seq::empty()
    } else {
        array_rows(code, lines.drop_last(), total) + seq![' ', ' ', ' ', ' '] + array_tokens(
            code,
            lines.last().hex_body@,
            page_bytes(lines.drop_last()).len(),
            total,
        ) + seq!['\n']
    }
}

/// The whole array literal of a page.
pub open spec fn array_text(page: Page, code: Seq<char>) -> Seq<char> {
    array_header(code, page.bytes as nat) + array_rows(code, page.body@, page.bytes as nat)
        + array_footer(code)
}

/// The array text opens with the header line and closes with the footer
/// line of the chosen language; for Rust, C and Go the header carries the
/// page's byte count in decimal.
pub proof fn law_array_frame(page: Page, code: Seq<char>)
    ensures
        array_text(page, code).take(array_header(code, page.bytes as nat).len() as int)
            == array_header(code, page.bytes as nat),
        array_text(page, code).skip(
            array_text(page, code).len() - array_footer(code).len(),
        ) == array_footer(code),
        code == seq!['r'] ==> array_header(code, page.bytes as nat) == "let ARRAY: [u8; "@
            + decimal(page.bytes as nat) + "] = ["@ + seq!['\n'],
        code == seq!['c'] ==> array_header(code, page.bytes as nat) == "unsigned char ARRAY["@
            + decimal(page.bytes as nat) + "] = {"@ + seq!['\n'],
        code == seq!['g'] ==> array_header(code, page.bytes as nat) == "a := ["@ + decimal(
            page.bytes as nat,
        ) + "]byte{"@ + seq!['\n'],
{
    let text = array_text(page, code);
    let head = array_header(code, page.bytes as nat);
    let foot = array_footer(code);
    assert(text.take(head.len() as int) =~= head);
    assert(text.skip(text.len() - foot.len()) =~= foot);
    assert(seq!['r'][0] == 'r' && seq!['c'][0] == 'c' && seq!['g'][0] == 'g');
}

/// The letter of a one-letter code.
fn code_letter(code: &str) -> (r: Option<char>)
    ensures
        r == (if code@.len() == 1 {
            Some(code@[0])
        } else {
            None
        }),
{
    if code.unicode_len() == 1 {
        Some(code.get_char(0))
    } else {
        None
    }
}

/// Renders a page as the array literal of the language that `array_format`
/// names: the opening line, which gives the byte count where the language
/// needs one, a line of tokens per row, and the closing line.
pub fn render_array(page: &Page, array_format: &str) -> (r: String)
    requires
        page_bytes(page.body@).len() <= u64::MAX,
    ensures
        r@ == array_text(*page, array_format@),
{
    let ghost code = array_format@;
    let letter = code_letter(array_format);
    proof {
        if code.len() == 1 {
            assert(code =~= seq![code[0]]);
        }
    }
    let mut out = String::new();
    match letter {
        Some('r') => {
            out.append("let ARRAY: [u8; ");
            push_decimal(&mut out, page.bytes);
            out.append("] = [");
        },
        Some('c') => {
            out.append("unsigned char ARRAY[");
            push_decimal(&mut out, page.bytes);
            out.append("] = {");
        },
        Some('g') => {
            out.append("a := [");
            push_decimal(&mut out, page.bytes);
            out.append("]byte{");
        },
        Some('p') => out.append("a = ["),
        Some('k') => out.append("val a = byteArrayOf("),
        Some('j') => out.append("byte[] a = new byte[]{"),
        Some('s') => out.append("let a: [UInt8] = ["),
        Some('f') => out.append("let a = [|"),
        _ => out.append("unknown array format"),
    }
    push_char(&mut out, '\n');
    assert(out@ =~= array_header(code, page.bytes as nat));
    let is_go = letter == Some('g');
    let is_fsharp = letter == Some('f');
    let mut i: u64 = 0;
    let mut n: usize = 0;
    while n < page.body.len()
        invariant
            n <= page.body@.len(),
            page_bytes(page.body@).len() <= u64::MAX,
            is_go == (code == seq!['g']),
            is_fsharp == (code == seq!['f']),
            i == page_bytes(page.body@.take(n as int)).len(),
            out@ == array_header(code, page.bytes as nat) + array_rows(
                code,
                page.body@.take(n as int),
                page.bytes as nat,
            ),
        decreases page.body@.len() - n,
    {
        let line = &page.body[n];
        let ghost row_start = out@;
        let ghost start = i;
        proof {
            assert(page.body@.take(n + 1).drop_last() =~= page.body@.take(n as int));
            assert(page.body@.take(n + 1).last() == *line);
            lemma_prefix_bytes_fit(page.body@, n + 1);
        }
        out.append("    ");
        proof {
            reveal_strlit("    ");
        }
        let ghost after_indent = out@;
        let mut j: usize = 0;
        while j < line.hex_body.len()
            invariant
                j <= line.hex_body@.len(),
                start + line.hex_body@.len() <= u64::MAX,
                i == start + j,
                is_go == (code == seq!['g']),
                is_fsharp == (code == seq!['f']),
                out@ == after_indent + array_tokens(
                    code,
                    line.hex_body@.take(j as int),
                    start as nat,
                    page.bytes as nat,
                ),
            decreases line.hex_body@.len() - j,
        {
            let b = line.hex_body[j];
            i = i + 1;
            let hex = match Format::LowerHex.format(b, true) {
                Ok(s) => s,
                Err(_) => String::new(),
            };
            out.append(hex.as_str());
            if i == page.bytes && !is_go {
                if is_fsharp {
                    push_char(&mut out, 'u');
                    push_char(&mut out, 'y');
                }
            } else if is_fsharp {
                push_char(&mut out, 'u');
                push_char(&mut out, 'y');
                push_char(&mut out, ';');
                push_char(&mut out, ' ');
            } else {
                push_char(&mut out, ',');
                push_char(&mut out, ' ');
            }
            proof {
                let t = line.hex_body@.take(j + 1);
                assert(t.drop_last() =~= line.hex_body@.take(j as int));
                assert(out@ =~= after_indent + array_tokens(code, t, start as nat, page.bytes as nat));
            }
            j = j + 1;
        }
        push_char(&mut out, '\n');
        proof {
            assert(line.hex_body@.take(j as int) =~= line.hex_body@);
            assert(out@ =~= array_header(code, page.bytes as nat) + array_rows(
                code,
                page.body@.take(n + 1),
                page.bytes as nat,
            ));
        }
        n = n + 1;
    }
    proof {
        assert(page.body@.take(n as int) =~= page.body@);
    }
    let ghost before_footer = out@;
    match letter {
        Some('r') => out.append("];"),
        Some('c') | Some('j') => out.append("};"),
        Some('g') => out.append("}"),
        Some('p') | Some('s') => out.append("]"),
        Some('k') => out.append(")"),
        Some('f') => out.append("|]"),
        _ => out.append("unknown array format"),
    }
    push_char(&mut out, '\n');
    assert(out@ =~= before_footer + array_footer(code));
    out
}

/// The bytes of the first rows of a page whose bytes a `u64` counts fit in
/// a `u64` too.
proof fn lemma_prefix_bytes_fit(lines: Seq<Line>, k: int)
    requires
        0 <= k <= lines.len(),
        page_bytes(lines).len() <= u64::MAX,
    ensures
        page_bytes(lines.take(k)).len() <= u64::MAX,
        k > 0 ==> page_bytes(lines.take(k - 1)).len() + lines[k - 1].hex_body@.len() <= u64::MAX,
    decreases lines.len(),
{
    if k < lines.len() {
        assert(lines.drop_last().take(k) =~= lines.take(k));
        if k > 0 {
            assert(lines.drop_last().take(k - 1) =~= lines.take(k - 1));
        }
        lemma_prefix_bytes_fit(lines.drop_last(), k);
    } else {
        assert(lines.take(k) =~= lines);
        if k > 0 {
            assert(lines.drop_last() =~= lines.take(k - 1));
        }
    }
}

} // verus!
