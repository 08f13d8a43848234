//! The rows and the page that the chunker builds and the renderers read.

use vstd::prelude::*;

verus! {

/// One row of a dump: the bytes of the row, where it starts in the stream,
/// and the printable rendering of its bytes.
#[derive(Clone, Debug, Default)]
pub struct Line {
    /// Number of bytes of the stream that come before this row.
    pub offset: u64,
    /// The raw bytes of this row.
    pub hex_body: Vec<u8>,
    /// The printable rendering of the row's bytes.
    pub ascii: Vec<u8>,
    /// Number of bytes in this row.
    pub bytes: u64,
}

impl Line {
    /// An empty row at offset zero.
    pub fn new() -> (r: Line)
        ensures
            r.offset == 0,
            r.hex_body@ == Seq::<u8>::empty(),
            r.ascii@ == Seq::<u8>::empty(),
            r.bytes == 0,
    {
        Line { offset: 0x0, hex_body: Vec::new(), ascii: Vec::new(), bytes: 0x0 }
    }
}

/// A whole dump: its rows in order and the number of bytes they hold.
#[derive(Clone, Debug, Default)]
pub struct Page {
    /// Offset of the first row.
    pub offset: u64,
    /// The rows, in stream order.
    pub body: Vec<Line>,
    /// Number of bytes over all rows.
    pub bytes: u64,
}

impl Page {
    /// An empty page with no rows.
    pub fn new() -> (r: Page)
        ensures
            r.offset == 0,
            r.body@ == Seq::<Line>::empty(),
            r.bytes == 0,
    {
        Page { offset: 0x0, body: Vec::new(), bytes: 0x0 }
    }
}

} // verus!
