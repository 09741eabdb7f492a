//! Source positions. Every offset is a UTF-8 byte offset. A [`Span`] also names the
//! file it lies in; the paths and contents of the files are kept by [`SourceMap`].
use vstd::prelude::*;

verus! {

/// Identifies a source file: its index in the [`SourceMap`].
#[derive(Debug, Clone, Copy, PartialEq, Eq, Hash, Structural)]
pub struct FileId(pub u32);

#[derive(Debug, Clone, Copy, PartialEq, Eq, Structural)]
pub struct Span {
    /// The file that the span lies in.
    pub file: FileId,
    /// First byte of the span.
    pub start: usize,
    /// First byte after the span.
    pub end: usize,
}

/// The smaller of two numbers.
pub open spec fn min_of(a: int, b: int) -> int {
    if a <= b {
        a
    } else {
        b
    }
}

/// The larger of two numbers.
pub open spec fn max_of(a: int, b: int) -> int {
    if a >= b {
        a
    } else {
        b
    }
}

/// The least span that covers both `a` and `b`, in the file of `a`.
pub open spec fn span_merge(a: Span, b: Span) -> Span {
    Span {
        file: a.file,
        start: min_of(a.start as int, b.start as int) as usize,
        end: max_of(a.end as int, b.end as int) as usize,
    }
}

/// Every byte of `inner` lies in `outer`.
pub open spec fn span_within(inner: Span, outer: Span) -> bool {
    &&& inner.file == outer.file
    &&& outer.start <= inner.start
    &&& inner.end <= outer.end
}

impl Span {
    pub fn new(file: FileId, start: usize, end: usize) -> (r: Span)
        ensures
            r == (Span { file, start, end }),
    {
        Span { file, start, end }
    }

    /// The least span that covers both spans, which lie in the same file.
    pub fn merge(self, other: Span) -> (r: Span)
        requires
            self.file == other.file,
        ensures
            r == span_merge(self, other),
    {
        let start: usize = if self.start <= other.start {
            self.start
        } else {
            other.start
        };
        let end: usize = if self.end >= other.end {
            self.end
        } else {
            other.end
        };
        Span { file: self.file, start, end }
    }
}

/// One source file: the path it is shown under, and its text.
pub struct SourceFile {
    pub path: String,
    pub src: String,
}

/// What a [`SourceFile`] holds.
pub ghost struct SourceFileV {
    pub path: Seq<char>,
    pub src: Seq<char>,
}

impl View for SourceFile {
    type V = SourceFileV;

    open spec fn view(&self) -> SourceFileV {
        SourceFileV { path: self.path@, src: self.src@ }
    }
}

/// All the source files of one compilation; a [`FileId`] is an index into them.
pub struct SourceMap {
    files: Vec<SourceFile>,
}

impl View for SourceMap {
    type V = Seq<SourceFileV>;

    closed spec fn view(&self) -> Seq<SourceFileV> {
        Seq::new(self.files@.len(), |i: int| self.files@[i]@)
    }
}

impl Default for SourceMap {
    fn default() -> (r: Self)
        ensures
            r@ == Seq::<SourceFileV>::empty(),
    {
        SourceMap::new()
    }
}

impl SourceMap {
    pub fn new() -> (r: Self)
        ensures
            r@ == Seq::<SourceFileV>::empty(),
    {
        SourceMap { files: Vec::new() }
    }

    /// The number of files.
    pub fn count(&self) -> (n: usize)
        ensures
            n == self@.len(),
    {
        self.files.len()
    }

    /// Registers a file and returns its [`FileId`].
    pub fn add(&mut self, path: String, src: String) -> (id: FileId)
        requires
            old(self)@.len() <= u32::MAX,
        ensures
            final(self)@ == old(self)@.push(SourceFileV { path: path@, src: src@ }),
            id == FileId(old(self)@.len() as u32),
    {
        let id = FileId(self.files.len() as u32);
        self.files.push(SourceFile { path, src });
        id
    }

    /// The file that `id` stands for.
    pub fn get(&self, id: FileId) -> (r: &SourceFile)
        requires
            id.0 < self@.len(),
        ensures
            r@ == self@[id.0 as int],
    {
        &self.files[id.0 as usize]
    }
}

/// A file that was added is found again under the id that `add` returned, and the files
/// that were there keep their ids.
pub proof fn added_file_is_found(before: Seq<SourceFileV>, file: SourceFileV, id: FileId)
    requires
        before.len() <= u32::MAX,
        id == FileId(before.len() as u32),
    ensures
        before.push(file)[id.0 as int] == file,
        forall|i: int| 0 <= i < before.len() ==> before.push(file)[i] == before[i],
{
}

/// Merging does not depend on the order of the two spans.
pub proof fn merge_commutes(a: Span, b: Span)
    requires
        a.file == b.file,
    ensures
        span_merge(a, b) == span_merge(b, a),
{
}

/// Merging three spans does not depend on the grouping.
pub proof fn merge_associates(a: Span, b: Span, c: Span)
    requires
        a.file == b.file,
        b.file == c.file,
    ensures
        span_merge(span_merge(a, b), c) == span_merge(a, span_merge(b, c)),
{
}

/// A merged span covers both of its parts, and lies in every span that covers both.
pub proof fn merge_is_least_cover(a: Span, b: Span, outer: Span)
    requires
        a.file == b.file,
    ensures
        span_within(a, span_merge(a, b)),
        span_within(b, span_merge(a, b)),
        span_within(a, outer) && span_within(b, outer) ==> span_within(span_merge(a, b), outer),
{
}

} // verus!
