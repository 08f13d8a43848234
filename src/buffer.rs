//! Cutting a byte stream into the rows of a page.

use vstd::prelude::*;
use vstd::arithmetic::div_mod::{
    lemma_fundamental_div_mod, lemma_fundamental_div_mod_converse, lemma_mod_pos_bound,
};
use vstd::arithmetic::mul::lemma_mul_inequality;

use crate::models::{Line, Page};

verus! {

/// Bytes per row: a column width of zero acts as a width of one.
pub open spec fn row_width(column_width: u64) -> nat {
    if column_width == 0 {
        1
    } else {
        column_width as nat
    }
}

/// The most bytes that a chunker takes in: the truncation length when one
/// is given, else as many as a `u64` can count.
pub open spec fn read_limit(truncate_len: u64) -> nat {
    if truncate_len > 0 {
        truncate_len as nat
    } else {
        u64::MAX as nat
    }
}

/// The bytes of `input` that chunking with truncation length `truncate_len`
/// consumes: all of them, or the first `truncate_len` when it is not zero.
pub open spec fn consumed(input: Seq<u8>, truncate_len: u64) -> Seq<u8> {
    if input.len() <= read_limit(truncate_len) {
        input
    } else {
        input.take(read_limit(truncate_len) as int)
    }
}

/// The rows of `data` at `w` bytes per row: every full row, then one more
/// row with what is left, which may be empty.
pub open spec fn rows_of(data: Seq<u8>, w: nat) -> Seq<Seq<u8>>
    recommends
        w > 0,
{
    Seq::new(
        data.len() / w + 1,
        |i: int|
            data.subrange(i * w, if (i + 1) * w <= data.len() { (i + 1) * w } else { data.len() as int }),
    )
}

/// Concatenation of the bytes of all rows of a page, in order.
pub open spec fn page_bytes(lines: Seq<Line>) -> Seq<u8>
    decreases lines.len(),
{
    if lines.len() == 0 {
        Seq::empty()
    } else {
        page_bytes(lines.drop_last()) + lines.last().hex_body@
    }
}

/// `page` is what chunking `data` at `column_width` bytes per row gives:
/// one row per element of `rows_of`, each row knowing its length and its
/// offset in the stream, and the page knowing the total.
pub open spec fn is_chunking(page: Page, data: Seq<u8>, column_width: u64) -> bool {
    let w = row_width(column_width);
    let rows = rows_of(data, w);
    &&& page.offset == 0
    &&& page.bytes == data.len()
    &&& page.body@.len() == rows.len()
    &&& forall|i: int|
        #![trigger page.body@[i]]
        0 <= i < rows.len() ==> {
            &&& page.body@[i].hex_body@ == rows[i]
            &&& page.body@[i].bytes == rows[i].len()
            &&& page.body@[i].offset == i * w
            &&& page.body@[i].ascii@ == Seq::<u8>::empty()
        }
}

/// Builds a page from a stream of bytes handed in one at a time.
pub struct Chunker {
    page: Page,
    line: Line,
    truncate_len: u64,
    column_width: u64,
    data: Ghost<Seq<u8>>,
}

impl Chunker {
    /// The bytes taken in so far.
    pub closed spec fn consumed(&self) -> Seq<u8> {
        self.data@
    }

    /// The truncation length that the chunker was made with.
    pub closed spec fn truncate_len(&self) -> u64 {
        self.truncate_len
    }

    /// The column width that the chunker was made with.
    pub closed spec fn column_width(&self) -> u64 {
        self.column_width
    }

    /// The rows sealed so far are the full rows of the bytes taken in, and
    /// the open row holds the rest.
    pub closed spec fn wf(&self) -> bool {
        let w = row_width(self.column_width) as int;
        let full = self.page.body@.len() as int;
        let data = self.data@;
        &&& data.len() <= read_limit(self.truncate_len)
        &&& self.page.offset == 0
        &&& self.page.bytes == data.len()
        &&& data.len() == full * w + self.line.hex_body@.len()
        &&& self.line.hex_body@.len() < w
        &&& self.line.hex_body@ == data.subrange(full * w, data.len() as int)
        &&& self.line.bytes == self.line.hex_body@.len()
        &&& self.line.offset == full * w
        &&& self.line.ascii@ == Seq::<u8>::empty()
        &&& forall|i: int|
            #![trigger self.page.body@[i]]
            0 <= i < full ==> {
                &&& self.page.body@[i].hex_body@ == data.subrange(i * w, i * w + w)
                &&& self.page.body@[i].bytes == w
                &&& self.page.body@[i].offset == i * w
                &&& self.page.body@[i].ascii@ == Seq::<u8>::empty()
            }
    }

    /// A chunker that has taken in nothing yet.
    pub fn new(truncate_len: u64, column_width: u64) -> (r: Chunker)
        ensures
            r.wf(),
            r.consumed() == Seq::<u8>::empty(),
            r.truncate_len() == truncate_len,
            r.column_width() == column_width,
    {
        let r = Chunker {
            page: Page::new(),
            line: Line::new(),
            truncate_len,
            column_width,
            data: Ghost(Seq::empty()),
        };
        assert(r.data@.subrange(0, 0) =~= r.line.hex_body@);
        assert(0 * (row_width(column_width) as int) == 0);
        r
    }

    /// Whether the chunker takes another byte: false once the truncation
    /// length (or the largest count) is reached.
    pub fn accepts_more(&self) -> (r: bool)
        requires
            self.wf(),
        ensures
            r == (self.consumed().len() < read_limit(self.truncate_len())),
    {
        if self.truncate_len > 0 {
            self.page.bytes < self.truncate_len
        } else {
            self.page.bytes < u64::MAX
        }
    }

    /// Takes in one more byte: it joins the open row, which is sealed into
    /// the page once it holds a full row's worth.
    pub fn push(&mut self, b: u8)
        requires
            old(self).wf(),
            old(self).consumed().len() < read_limit(old(self).truncate_len()),
        ensures
            final(self).wf(),
            final(self).consumed() == old(self).consumed().push(b),
            final(self).truncate_len() == old(self).truncate_len(),
            final(self).column_width() == old(self).column_width(),
    {
        let ghost w = row_width(self.column_width) as int;
        let ghost full = self.page.body@.len() as int;
        let ghost old_data = self.data@;
        let ghost old_body = self.page.body@;
        self.line.bytes = self.line.bytes + 1;
        self.page.bytes = self.page.bytes + 1;
        self.line.hex_body.push(b);
        self.data = Ghost(self.data@.push(b));
        assert(self.line.hex_body@ =~= self.data@.subrange(full * w, self.data@.len() as int));
        assert forall|i: int| 0 <= i < full implies #[trigger] self.page.body@[i].hex_body@
            == self.data@.subrange(i * w, i * w + w) by {
            lemma_row_end(i, full, w);
            assert(self.data@.subrange(i * w, i * w + w) =~= old_data.subrange(i * w, i * w + w));
        }
        if self.line.bytes >= self.column_width {
            let mut sealed = Line::new();
            sealed.offset = self.page.bytes;
            core::mem::swap(&mut self.line, &mut sealed);
            self.page.body.push(sealed);
            proof {
                assert(full * w + w == (full + 1) * w) by (nonlinear_arith);
                assert(self.line.hex_body@ =~= self.data@.subrange((full + 1) * w, self.data@.len() as int));
                assert forall|i: int| 0 <= i < full + 1 implies {
                    &&& #[trigger] self.page.body@[i].hex_body@ == self.data@.subrange(i * w, i * w + w)
                    &&& self.page.body@[i].bytes == w
                    &&& self.page.body@[i].offset == i * w
                    &&& self.page.body@[i].ascii@ == Seq::<u8>::empty()
                } by {
                    if i < full {
                        assert(self.page.body@[i] == old_body[i]);
                    }
                }
            }
        }
    }

    /// The finished page: the sealed rows and then the open row, which may
    /// be empty.
    pub fn finish(self) -> (r: Page)
        requires
            self.wf(),
        ensures
            is_chunking(r, self.consumed(), self.column_width()),
    {
        let ghost w = row_width(self.column_width) as int;
        let ghost full = self.page.body@.len() as int;
        let ghost data = self.data@;
        let ghost old_body = self.page.body@;
        let Chunker { mut page, line, .. } = self;
        let ghost last = line;
        page.body.push(line);
        proof {
            lemma_fundamental_div_mod_converse(
                data.len() as int,
                w,
                full,
                data.len() - full * w,
            );
            let rows = rows_of(data, w as nat);
            assert(rows.len() == full + 1);
            assert forall|i: int| 0 <= i < rows.len() implies {
                &&& #[trigger] page.body@[i].hex_body@ == rows[i]
                &&& page.body@[i].bytes == rows[i].len()
                &&& page.body@[i].offset == i * w
                &&& page.body@[i].ascii@ == Seq::<u8>::empty()
            } by {
                assert((i + 1) * w == i * w + w) by (nonlinear_arith);
                if i < full {
                    lemma_row_end(i, full, w);
                    assert(page.body@[i] == old_body[i]);
                } else {
                    assert(i == full);
                    assert(page.body@[i] == last);
                }
            }
        }
        page
    }
}

/// A row that starts before row `full` also ends no later than row `full`
/// starts.
proof fn lemma_row_end(i: int, full: int, w: int)
    requires
        0 <= i < full,
        w > 0,
    ensures
        i * w + w <= full * w,
{
    assert(i * w + w <= full * w) by (nonlinear_arith)
        requires
            0 <= i < full,
            w > 0,
    ;
}

/// Row `i` of `len` bytes at `w` bytes per row starts within the data, and
/// the row after the last one would start past it.
proof fn lemma_row_bounds(len: int, w: int, i: int)
    requires
        len >= 0,
        w > 0,
        0 <= i <= len / w,
    ensures
        i * w <= len,
        (len / w + 1) * w > len,
{
    lemma_fundamental_div_mod(len, w);
    lemma_mod_pos_bound(len, w);
    lemma_mul_inequality(i, len / w, w);
    assert((len / w + 1) * w == w * (len / w) + w) by (nonlinear_arith);
    assert(w * (len / w) == (len / w) * w) by (nonlinear_arith);
}

/// The first `k` rows of a chunked page hold the bytes of the data up to
/// where row `k` starts.
proof fn lemma_rows_prefix(page: Page, data: Seq<u8>, column_width: u64, k: int)
    requires
        is_chunking(page, data, column_width),
        0 <= k <= page.body@.len(),
    ensures
        page_bytes(page.body@.take(k)) == data.take(
            if k * row_width(column_width) <= data.len() {
                k * row_width(column_width)
            } else {
                data.len() as int
            },
        ),
    decreases k,
{
    let w = row_width(column_width) as int;
    if k == 0 {
        assert(page.body@.take(0) =~= Seq::<Line>::empty());
        assert(data.take(0) =~= Seq::<u8>::empty());
    } else {
        lemma_rows_prefix(page, data, column_width, k - 1);
        lemma_row_bounds(data.len() as int, w, k - 1);
        assert(page.body@.take(k).drop_last() =~= page.body@.take(k - 1));
        assert(page.body@[k - 1].hex_body@ == rows_of(data, w as nat)[k - 1]);
        assert(k * w == (k - 1) * w + w) by (nonlinear_arith);
        let end = if k * w <= data.len() { k * w } else { data.len() as int };
        assert(data.take(end) =~= data.take((k - 1) * w) + data.subrange((k - 1) * w, end));
    }
}

/// Joining the rows of a chunked page, in order, gives back the data:
/// nothing is lost, repeated or moved.
pub proof fn law_rows_rebuild_data(page: Page, data: Seq<u8>, column_width: u64)
    requires
        is_chunking(page, data, column_width),
    ensures
        page_bytes(page.body@) == data,
{
    let w = row_width(column_width) as int;
    let n = page.body@.len() as int;
    lemma_rows_prefix(page, data, column_width, n);
    lemma_row_bounds(data.len() as int, w, 0);
    assert(page.body@.take(n) =~= page.body@);
    assert(data.take(data.len() as int) =~= data);
}

/// A chunked page has at least one row, even for no data.
pub proof fn law_page_has_a_row(page: Page, data: Seq<u8>, column_width: u64)
    requires
        is_chunking(page, data, column_width),
    ensures
        page.body@.len() >= 1,
{
}

/// At one byte per row, `n` bytes give `n + 1` rows: one per byte and an
/// empty one at the end.
pub proof fn law_width_one_rows(page: Page, data: Seq<u8>)
    requires
        is_chunking(page, data, 1),
    ensures
        page.body@.len() == data.len() + 1,
        forall|i: int| 0 <= i < data.len() ==> (#[trigger] page.body@[i]).hex_body@ == seq![data[i]],
        page.body@.last().hex_body@.len() == 0,
{
    let rows = rows_of(data, 1);
    assert(data.len() / 1 == data.len());
    assert forall|i: int| 0 <= i < data.len() implies (#[trigger] page.body@[i]).hex_body@ == seq![data[i]] by {
        assert(page.body@[i].hex_body@ == rows[i]);
        assert(rows[i] =~= seq![data[i]]);
    }
    assert(page.body@[data.len() as int].hex_body@ == rows[data.len() as int]);
    assert(rows[data.len() as int] =~= Seq::<u8>::empty());
}

/// Data whose length is a whole number of rows gives that many full rows
/// and one empty row after them.
pub proof fn law_whole_rows(page: Page, data: Seq<u8>, column_width: u64)
    requires
        is_chunking(page, data, column_width),
        column_width > 0,
        data.len() % (column_width as nat) == 0,
    ensures
        page.body@.len() == data.len() / (column_width as nat) + 1,
        page.body@.last().hex_body@.len() == 0,
{
    let w = column_width as int;
    let n = data.len() / (column_width as nat);
    lemma_fundamental_div_mod(data.len() as int, w);
    assert(w * n == n * w) by (nonlinear_arith);
    assert((n + 1) * w == n * w + w) by (nonlinear_arith);
    let rows = rows_of(data, w as nat);
    assert(page.body@[n as int].hex_body@ == rows[n as int]);
    assert(rows[n as int] =~= Seq::<u8>::empty());
}

/// Cuts `data` into rows of `column_width` bytes, stopping after
/// `truncate_len` bytes when that is not zero. The page always ends with a
/// row that is not full, which may be empty.
pub fn buf_to_array(data: &[u8], truncate_len: u64, column_width: u64) -> (r: Page)
    ensures
        is_chunking(r, consumed(data@, truncate_len), column_width),
        r.bytes == consumed(data@, truncate_len).len(),
        page_bytes(r.body@) == consumed(data@, truncate_len),
        r.body@.len() >= 1,
{
    let mut chunker = Chunker::new(truncate_len, column_width);
    let mut i: usize = 0;
    while i < data.len() && chunker.accepts_more()
        invariant
            chunker.wf(),
            chunker.truncate_len() == truncate_len,
            chunker.column_width() == column_width,
            i <= data@.len(),
            chunker.consumed() == data@.take(i as int),
        decreases data@.len() - i,
    {
        chunker.push(data[i]);
        i = i + 1;
        assert(chunker.consumed() =~= data@.take(i as int));
    }
    assert(chunker.consumed() =~= consumed(data@, truncate_len));
    let page = chunker.finish();
    proof {
        law_rows_rebuild_data(page, consumed(data@, truncate_len), column_width);
    }
    page
}

} // verus!
