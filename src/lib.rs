//! A hex viewer library: it cuts a byte stream into rows of a fixed width and
//! renders them as an offset / numeric / printable-character dump, or as an
//! array literal of one of several programming languages.

mod args;
mod array_output;
mod buffer;
mod dump;
mod format;
mod function_output;
mod models;
mod output;
mod text;

pub use buffer::{
    buf_to_array, consumed, is_chunking, law_page_has_a_row, law_rows_rebuild_data,
    law_whole_rows, law_width_one_rows, page_bytes, read_limit, row_width, rows_of, Chunker,
};
pub use format::{spec_format_from_code, Format, FormatError};
pub use models::{Line, Page};
pub use output::{
    append_ascii, ascii_cell, byte_to_color, byte_token, color_of, colour_reset,
    fixed_colour_start, offset, offset_text, painted, print_byte, print_offset, printable,
};
pub use dump::{
    ascii_column, dump_row, dump_rows, dump_text, render_dump, row_padding, spaces, summary_line,
    tokens_column,
};
pub use array_output::{
    array_footer, array_header, array_rows, array_text, array_token, array_tokens, law_array_frame,
    render_array,
};
pub use args::{
    flag_enabled, ARG_ARR, ARG_CLR, ARG_COL, ARG_FMT, ARG_FNC, ARG_INP, ARG_LEN, ARG_PFX, ARG_PLC,
};
pub use function_output::{format_wave, wave_text, wave_values};
pub use text::{ascii_bytes, decimal, digit_char, digit_count, digits, lemma_digits_ascii};
