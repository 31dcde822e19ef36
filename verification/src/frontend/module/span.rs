//! Located slices of a module's source text.
use crate::frontend::lexer::ascii::{CARRIAGE_RETURN, LINE_FEED};
use crate::util::indexed_vector::IndexedVecIndex;
use vstd::prelude::*;

verus! {

/// Names the arena of modules.
#[derive(Debug, PartialEq, Eq)]
pub struct ModuleTag;

pub type ModuleId = IndexedVecIndex<ModuleTag>;

/// A slice of a module's source text: `len` bytes from byte offset `start`,
/// which lies on line `line` at column `col` (both counted from 0, the column
/// in bytes). A span never owns text; it is resolved against the source on
/// demand.
#[derive(Copy, Clone, Debug, PartialEq, Eq)]
pub struct Span {
    pub module_idx: ModuleId,
    pub start: usize,
    pub len: usize,
    pub line: usize,
    pub col: usize,
}

/// Whether `b` ends a line at position `pos` of `src`: a line feed, or a
/// carriage return that no line feed follows.
pub open spec fn ends_line(src: Seq<u8>, pos: int) -> bool {
    &&& 0 <= pos < src.len()
    &&& (src[pos] == LINE_FEED || (src[pos] == CARRIAGE_RETURN && !(pos + 1 < src.len()
        && src[pos + 1] == LINE_FEED)))
}

/// The number of line ends before byte offset `pos`.
pub open spec fn line_of(src: Seq<u8>, pos: int) -> nat
    decreases pos,
{
    if pos <= 0 {
        0
    } else if ends_line(src, pos - 1) {
        line_of(src, pos - 1) + 1
    } else {
        line_of(src, pos - 1)
    }
}

/// The number of bytes between the last line end before `pos` and `pos`.
pub open spec fn col_of(src: Seq<u8>, pos: int) -> nat
    decreases pos,
{
    if pos <= 0 {
        0
    } else if ends_line(src, pos - 1) {
        0
    } else {
        col_of(src, pos - 1) + 1
    }
}

/// Neither the line nor the column of an offset exceeds the offset.
pub proof fn lemma_line_col_bounds(src: Seq<u8>, pos: int)
    ensures
        line_of(src, pos) <= if pos < 0 { 0 } else { pos },
        col_of(src, pos) <= if pos < 0 { 0 } else { pos },
    decreases pos,
{
    if pos > 0 {
        lemma_line_col_bounds(src, pos - 1);
    }
}

/// The span of `len` bytes at offset `start` of the source `src` of module
/// `module_idx`.
pub open spec fn span_at(module_idx: ModuleId, src: Seq<u8>, start: int, len: int) -> Span {
    Span {
        module_idx,
        start: start as usize,
        len: len as usize,
        line: line_of(src, start) as usize,
        col: col_of(src, start) as usize,
    }
}

impl Span {
    /// The offset just behind the span.
    pub open spec fn end(self) -> int {
        self.start + self.len
    }

    /// Whether the span lies inside a source of `n` bytes.
    pub open spec fn within(self, n: int) -> bool {
        self.start + self.len <= n
    }

    /// The text that the span stands for in `src`.
    pub open spec fn text(self, src: Seq<u8>) -> Seq<u8>
        recommends
            self.within(src.len() as int),
    {
        src.subrange(self.start as int, self.start + self.len)
    }

    /// The span that runs from the start of `self` to the end of `last`. It
    /// keeps the module, line and column of `self`. Where `last` ends before
    /// `self` starts the result is empty, and an end beyond the largest offset
    /// counts as the largest offset.
    pub open spec fn spec_to(self, last: Span) -> Span {
        let end = if last.start + last.len > usize::MAX {
            usize::MAX as int
        } else {
            last.start + last.len
        };
        Span {
            module_idx: self.module_idx,
            start: self.start,
            len: if end >= self.start {
                (end - self.start) as usize
            } else {
                0
            },
            line: self.line,
            col: self.col,
        }
    }

    /// The span that runs from the start of `self` to the end of `last`.
    #[verifier::when_used_as_spec(spec_to)]
    pub fn to(self, last: Span) -> (r: Span)
        ensures
            r == self.spec_to(last),
            self.start <= last.start + last.len <= usize::MAX ==> r.start + r.len == last.start
                + last.len,
    {
        let end = last.start.saturating_add(last.len);
        Span {
            module_idx: self.module_idx,
            start: self.start,
            len: end.saturating_sub(self.start),
            line: self.line,
            col: self.col,
        }
    }

    /// The bytes of the span in `source`.
    pub fn slice<'a>(&self, source: &'a [u8]) -> (r: &'a [u8])
        requires
            self.within(source@.len() as int),
        ensures
            r@ == self.text(source@),
    {
        let n = source.len();
        assert(self.start + self.len <= n);
        vstd::slice::slice_subrange(source, self.start, self.start + self.len)
    }
}

/// The line and the column of byte offset `pos` of `source`.
pub fn line_col(source: &[u8], pos: usize) -> (r: (usize, usize))
    requires
        pos <= source@.len(),
    ensures
        r.0 == line_of(source@, pos as int),
        r.1 == col_of(source@, pos as int),
{
    let n = source.len();
    let mut line: usize = 0;
    let mut col: usize = 0;
    let mut i: usize = 0;
    while i < pos
        invariant
            i <= pos <= source@.len(),
            n == source@.len(),
            line == line_of(source@, i as int),
            col == col_of(source@, i as int),
        decreases pos - i,
    {
        let b = source[i];
        let ends = b == LINE_FEED || (b == CARRIAGE_RETURN && !(i + 1 < n && source[i + 1]
            == LINE_FEED));
        proof {
            lemma_line_col_bounds(source@, i as int);
        }
        i += 1;
        if ends {
            line += 1;
            col = 0;
        } else {
            col += 1;
        }
    }
    (line, col)
}

} // verus!
