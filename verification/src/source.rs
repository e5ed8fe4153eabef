//! Registered source files and offset-to-line/column translation.
//!
//! A registry owns immutable source text per file. Registration
//! precomputes the offsets at which lines start (offset 0, plus the
//! offset after every line feed); translation binary-searches them.

use vstd::prelude::*;

use crate::span::{BytePos, Span};

verus! {

/// A stable handle to a registered file: its index in the registry.
#[derive(Debug, Clone, Copy, PartialEq, Eq, Structural)]
pub struct FileId(pub usize);

/// A 1-based line and column pair.
#[derive(Debug, Clone, Copy, PartialEq, Eq, Structural)]
pub struct LineColumn {
    pub line: usize,
    pub col: usize,
}

/// `p` starts a line of `text`: it is offset 0, or the offset just
/// after a line feed (the offset `text.len()` counts when the text
/// ends with a line feed, for the final empty line).
pub open spec fn is_line_start(text: Seq<char>, p: int) -> bool {
    p == 0 || (0 < p <= text.len() && text[p - 1] == '\n')
}

/// `starts` holds exactly the line-start offsets of `text`, in
/// strictly increasing order, beginning with 0.
pub open spec fn line_starts_wf(starts: Seq<BytePos>, text: Seq<char>) -> bool {
    &&& starts.len() >= 1
    &&& starts[0].0 == 0
    &&& forall|i: int, j: int| 0 <= i < j < starts.len() ==> starts[i].0 < starts[j].0
    &&& forall|i: int| 0 <= i < starts.len() ==> is_line_start(text, #[trigger] starts[i].0 as int)
    &&& forall|p: int|
        #[trigger] is_line_start(text, p) ==> exists|i: int|
            0 <= i < starts.len() && starts[i].0 == p
}

/// One registered file: display name, full text, and its line starts.
#[derive(Debug, Clone, PartialEq)]
pub struct SourceFile {
    pub name: String,
    pub source: String,
    pub line_starts: Vec<BytePos>,
}

/// Scan `source` once, recording offset 0 and the offset after every
/// line feed.
pub fn compute_line_starts(source: &str) -> (starts: Vec<BytePos>)
    ensures
        line_starts_wf(starts@, source@),
{
    let n = source.unicode_len();
    let mut starts: Vec<BytePos> = Vec::new();
    starts.push(BytePos(0));
    let mut i: usize = 0;
    while i < n
        invariant
            i <= n,
            n == source@.len(),
            starts@.len() >= 1,
            starts@[0].0 == 0,
            forall|a: int, b: int| 0 <= a < b < starts@.len() ==> starts@[a].0 < starts@[b].0,
            forall|a: int| 0 <= a < starts@.len() ==> #[trigger] starts@[a].0 <= i,
            forall|a: int|
                0 <= a < starts@.len() ==> is_line_start(source@, #[trigger] starts@[a].0 as int),
            forall|p: int|
                #[trigger] is_line_start(source@, p) && p <= i ==> exists|a: int|
                    0 <= a < starts@.len() && starts@[a].0 == p,
        decreases n - i,
    {
        let ghost prev = starts@;
        let ghost oldi = i as int;
        let c = source.get_char(i);
        if c == '\n' {
            starts.push(BytePos(i + 1));
        }
        i = i + 1;
        proof {
            assert forall|p: int| #[trigger] is_line_start(source@, p) && p <= i implies exists|
                a: int,
            | 0 <= a < starts@.len() && starts@[a].0 == p by {
                if p <= oldi {
                    let a = choose|a: int| 0 <= a < prev.len() && prev[a].0 == p;
                    assert(starts@[a].0 == p);
                } else {
                    assert(p == oldi + 1);
                    assert(source@[oldi] == '\n');
                    assert(starts@[starts@.len() - 1].0 == p);
                }
            }
        }
    }
    starts
}

impl SourceFile {
    /// The recorded line starts are exactly those of the text.
    pub open spec fn wf(self) -> bool {
        line_starts_wf(self.line_starts@, self.source@)
    }

    pub fn new(name: String, source: String, line_starts: Vec<BytePos>) -> (f: SourceFile)
        requires
            line_starts_wf(line_starts@, source@),
        ensures
            f.name == name,
            f.source == source,
            f.line_starts == line_starts,
            f.wf(),
    {
        SourceFile { name, source, line_starts }
    }

    /// The exact text under `span`, or `None` when the span lies
    /// outside the file's bounds.
    pub fn source(&self, span: Span) -> (r: Option<&str>)
        ensures
            span.start.0 <= span.end.0 && span.end.0 <= self.source@.len() ==> r is Some
                && r->0@ == self.source@.subrange(span.start.0 as int, span.end.0 as int),
            !(span.start.0 <= span.end.0 && span.end.0 <= self.source@.len()) ==> r is None,
    {
        let n = self.source.as_str().unicode_len();
        if span.start.0 <= span.end.0 && span.end.0 <= n {
            Some(self.source.as_str().substring_char(span.start.0, span.end.0))
        } else {
            None
        }
    }

    /// Translate an offset to a 1-based line and column: the line is
    /// the last one starting at or before `pos`, and the column counts
    /// from that line's start. An offset at or past end of file
    /// resolves to the last line.
    pub fn line_col(&self, pos: BytePos) -> (lc: LineColumn)
        requires
            self.wf(),
            pos.0 < usize::MAX,
        ensures
            1 <= lc.line <= self.line_starts@.len(),
            self.line_starts@[lc.line - 1].0 <= pos.0,
            lc.line < self.line_starts@.len() ==> pos.0 < self.line_starts@[lc.line as int].0,
            lc.col == pos.0 - self.line_starts@[lc.line - 1].0 + 1,
    {
        let mut lo: usize = 0;
        let mut hi: usize = self.line_starts.len();
        while hi - lo > 1
            invariant
                self.wf(),
                lo < hi <= self.line_starts@.len(),
                self.line_starts@[lo as int].0 <= pos.0,
                hi < self.line_starts@.len() ==> pos.0 < self.line_starts@[hi as int].0,
            decreases hi - lo,
        {
            let mid = lo + (hi - lo) / 2;
            if self.line_starts[mid].0 <= pos.0 {
                lo = mid;
            } else {
                hi = mid;
            }
        }
        let col = pos.0 - self.line_starts[lo].0;
        LineColumn { line: lo + 1, col: col + 1 }
    }
}

/// The line holding an offset is unique: no two distinct recorded line
/// starts can both start at or before the offset while their
/// successors lie past it.
pub proof fn lemma_line_col_unique(starts: Seq<BytePos>, text: Seq<char>, p: int, i: int, j: int)
    requires
        line_starts_wf(starts, text),
        0 <= i < starts.len(),
        0 <= j < starts.len(),
        starts[i].0 <= p,
        starts[j].0 <= p,
        i + 1 < starts.len() ==> p < starts[i + 1].0,
        j + 1 < starts.len() ==> p < starts[j + 1].0,
    ensures
        i == j,
{
    if i < j {
        assert(starts[i + 1].0 <= starts[j].0 || i + 1 == j);
    }
    if j < i {
        assert(starts[j + 1].0 <= starts[i].0 || j + 1 == i);
    }
}

/// An append-only collection of registered files; a `FileId` is an
/// index into it.
#[derive(Debug, Clone, PartialEq)]
pub struct SourceManager {
    pub files: Vec<SourceFile>,
}

impl SourceManager {
    pub open spec fn wf(self) -> bool {
        forall|i: int| 0 <= i < self.files@.len() ==> (#[trigger] self.files@[i]).wf()
    }

    pub fn new() -> (m: SourceManager)
        ensures
            m.files@.len() == 0,
            m.wf(),
    {
        SourceManager { files: Vec::new() }
    }

    /// Register a file and return its handle. The text is scanned once
    /// for its line starts; earlier files keep their handles.
    pub fn add_file(&mut self, name: String, source: String) -> (id: FileId)
        requires
            old(self).wf(),
        ensures
            final(self).wf(),
            id.0 == old(self).files@.len(),
            final(self).files@.len() == old(self).files@.len() + 1,
            forall|i: int|
                0 <= i < old(self).files@.len() ==> final(self).files@[i] == old(
                    self,
                ).files@[i],
            final(self).files@[id.0 as int].name == name,
            final(self).files@[id.0 as int].source == source,
    {
        let line_starts = compute_line_starts(source.as_str());
        let file_id = FileId(self.files.len());
        let file = SourceFile::new(name, source, line_starts);
        self.files.push(file);
        file_id
    }

    /// Look a handle up; only handles this registry issued are valid.
    pub fn get_file(&self, id: FileId) -> (r: Option<&SourceFile>)
        ensures
            id.0 < self.files@.len() ==> r is Some && *r->0 == self.files@[id.0 as int],
            id.0 >= self.files@.len() ==> r is None,
    {
        if id.0 < self.files.len() {
            Some(&self.files[id.0])
        } else {
            None
        }
    }
}

} // verus!
