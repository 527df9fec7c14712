//! Line-oriented views of a source file's bytes: the start and end of the
//! line containing an offset, line counting, and row/column resolution.

use vstd::prelude::*;
use crate::text_range::TextRange;

verus! {

/// The line-feed byte that terminates a line.
pub const NEWLINE: u8 = 10;

/// The start of the line containing `offset`: the largest position at or
/// before `offset` that is the file start or follows a line feed.
pub open spec fn line_start_of(text: Seq<u8>, offset: int) -> int
    decreases offset,
{
    if offset <= 0 {
        0
    } else if text[offset - 1] == NEWLINE {
        offset
    } else {
        line_start_of(text, offset - 1)
    }
}

/// The end of the line containing `offset`: the smallest position at or
/// after `offset` that is the file end or holds a line feed.
pub open spec fn line_end_of(text: Seq<u8>, offset: int) -> int
    decreases text.len() - offset,
{
    if offset >= text.len() {
        text.len() as int
    } else if text[offset] == NEWLINE {
        offset
    } else {
        line_end_of(text, offset + 1)
    }
}

/// Number of line feeds among the first `upto` bytes.
pub open spec fn count_newlines(text: Seq<u8>, upto: int) -> nat
    decreases upto,
{
    if upto <= 0 {
        0
    } else {
        count_newlines(text, upto - 1) + if text[upto - 1] == NEWLINE {
            1nat
        } else {
            0nat
        }
    }
}

pub proof fn lemma_line_start_of_props(text: Seq<u8>, offset: int)
    requires
        0 <= offset <= text.len(),
    ensures
        0 <= line_start_of(text, offset) <= offset,
        line_start_of(text, offset) == 0 || text[line_start_of(text, offset) - 1] == NEWLINE,
        forall|i: int| line_start_of(text, offset) <= i < offset ==> text[i] != NEWLINE,
    decreases offset,
{
    if offset > 0 && text[offset - 1] != NEWLINE {
        lemma_line_start_of_props(text, offset - 1);
    }
}

pub proof fn lemma_line_end_of_props(text: Seq<u8>, offset: int)
    requires
        0 <= offset <= text.len(),
    ensures
        offset <= line_end_of(text, offset) <= text.len(),
        line_end_of(text, offset) == text.len() || text[line_end_of(text, offset)] == NEWLINE,
        forall|i: int| offset <= i < line_end_of(text, offset) ==> text[i] != NEWLINE,
    decreases text.len() - offset,
{
    if offset < text.len() && text[offset] != NEWLINE {
        lemma_line_end_of_props(text, offset + 1);
    }
}

pub proof fn lemma_count_newlines_le(text: Seq<u8>, upto: int)
    requires
        upto <= text.len(),
    ensures
        count_newlines(text, upto) <= if upto <= 0 {
            0int
        } else {
            upto
        },
    decreases upto,
{
    if upto > 0 {
        lemma_count_newlines_le(text, upto - 1);
    }
}

/// A 1-indexed row and column within a source file. The column counts bytes
/// from the line start.
#[derive(Clone, Copy, Debug, PartialEq, Eq, Structural)]
pub struct SourceLocation {
    pub row: usize,
    pub column: usize,
}

/// Resolves byte offsets of one file to line boundaries and locations.
#[derive(Clone, Debug, PartialEq, Eq)]
pub struct Locator {
    contents: Vec<u8>,
}

impl View for Locator {
    type V = Seq<u8>;

    closed spec fn view(&self) -> Seq<u8> {
        self.contents@
    }
}

impl Locator {
    pub fn new(contents: Vec<u8>) -> (r: Self)
        ensures
            r@ == contents@,
    {
        Locator { contents }
    }

    pub fn contents(&self) -> (r: &Vec<u8>)
        ensures
            r@ == self@,
    {
        &self.contents
    }

    pub fn len(&self) -> (r: usize)
        ensures
            r == self@.len(),
    {
        self.contents.len()
    }

    /// The start of the line containing `offset`.
    pub fn line_start(&self, offset: usize) -> (r: usize)
        requires
            offset <= self@.len(),
        ensures
            r == line_start_of(self@, offset as int),
            r <= offset,
    {
        let mut p = offset;
        while p > 0 && self.contents[p - 1] != NEWLINE
            invariant
                p <= offset <= self@.len(),
                line_start_of(self@, offset as int) == line_start_of(self@, p as int),
            decreases p,
        {
            p = p - 1;
        }
        proof {
            lemma_line_start_of_props(self@, offset as int);
        }
        p
    }

    /// The end of the line containing `offset`, excluding its line feed.
    pub fn line_end(&self, offset: usize) -> (r: usize)
        requires
            offset <= self@.len(),
        ensures
            r == line_end_of(self@, offset as int),
            offset <= r <= self@.len(),
    {
        let n = self.contents.len();
        let mut p = offset;
        while p < n && self.contents[p] != NEWLINE
            invariant
                offset <= p <= n,
                n == self@.len(),
                line_end_of(self@, offset as int) == line_end_of(self@, p as int),
            decreases n - p,
        {
            p = p + 1;
        }
        proof {
            lemma_line_end_of_props(self@, offset as int);
        }
        p
    }

    /// The end of the line containing `offset`, including its line feed if
    /// one is present.
    pub fn full_line_end(&self, offset: usize) -> (r: usize)
        requires
            offset <= self@.len(),
        ensures
            r == if line_end_of(self@, offset as int) < self@.len() {
                line_end_of(self@, offset as int) + 1
            } else {
                self@.len() as int
            },
            offset <= r <= self@.len(),
    {
        let e = self.line_end(offset);
        if e < self.contents.len() {
            e + 1
        } else {
            e
        }
    }

    /// The range of the line containing `offset`, excluding its line feed.
    pub fn line_range(&self, offset: usize) -> (r: TextRange)
        requires
            offset <= self@.len(),
        ensures
            r.start == line_start_of(self@, offset as int),
            r.end == line_end_of(self@, offset as int),
            r.wf(),
            r.start <= offset <= r.end,
    {
        let start = self.line_start(offset);
        let end = self.line_end(offset);
        TextRange::new(start, end)
    }

    /// Whether the bytes of `range` hold a line feed.
    pub fn contains_line_break(&self, range: &TextRange) -> (r: bool)
        requires
            range.wf(),
            range.end <= self@.len(),
        ensures
            r == exists|i: int| range.start <= i < range.end && self@[i] == NEWLINE,
    {
        let mut p = range.start;
        while p < range.end
            invariant
                range.start <= p <= range.end <= self@.len(),
                forall|i: int| range.start <= i < p ==> self@[i] != NEWLINE,
            decreases range.end - p,
        {
            if self.contents[p] == NEWLINE {
                return true;
            }
            p = p + 1;
        }
        false
    }

    /// The 1-indexed line number of the line containing `offset`.
    pub fn compute_line_index(&self, offset: usize) -> (r: usize)
        requires
            offset <= self@.len() < usize::MAX,
        ensures
            r == count_newlines(self@, offset as int) + 1,
    {
        let mut count: usize = 0;
        let mut p: usize = 0;
        while p < offset
            invariant
                p <= offset <= self@.len() < usize::MAX,
                count == count_newlines(self@, p as int),
                count <= p,
            decreases offset - p,
        {
            if self.contents[p] == NEWLINE {
                count = count + 1;
            }
            p = p + 1;
        }
        count + 1
    }

    /// The 1-indexed row and byte column of `offset`.
    pub fn source_location(&self, offset: usize) -> (r: SourceLocation)
        requires
            offset <= self@.len() < usize::MAX,
        ensures
            r.row == count_newlines(self@, offset as int) + 1,
            r.column == offset - line_start_of(self@, offset as int) + 1,
    {
        let row = self.compute_line_index(offset);
        let start = self.line_start(offset);
        SourceLocation { row, column: offset - start + 1 }
    }
}

} // verus!
