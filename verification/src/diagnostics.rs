//! Error messages. A message that points at a place shows the line it lies in, with the
//! place underlined:
//!
//! ```text
//! error[E0101]: 未定義の変数: x
//!   --> examples/bad.lum:2:12
//!   |
//! 2 |     return x;
//!   |            ^
//! ```
use crate::span::{SourceFile, SourceMap, Span};
use crate::text::{append_dec, chars_of, utf8_len, utf8_width};
use vstd::prelude::*;
#[allow(unused_imports)]
use crate::span::{max_of, min_of, SourceFileV};
#[allow(unused_imports)]
use crate::text::{
    byte_len, byte_pos, char_width, dec_text, lemma_byte_pos_mono, lemma_byte_pos_step,
};

verus! {

/// An error: its code, what it says, and the place it points at.
#[derive(Debug, Clone)]
pub struct Diagnostic {
    pub code: Option<&'static str>,
    pub message: String,
    pub span: Option<Span>,
}

/// What a [`Diagnostic`] stands for.
pub ghost struct DiagV {
    pub code: Option<Seq<char>>,
    pub message: Seq<char>,
    pub span: Option<Span>,
}

impl View for Diagnostic {
    type V = DiagV;

    open spec fn view(&self) -> DiagV {
        DiagV {
            code: match self.code {
                Some(c) => Some(c@),
                None => None,
            },
            message: self.message@,
            span: self.span,
        }
    }
}

/// The error with this code and message at this place.
pub open spec fn diag(code: Seq<char>, message: Seq<char>, span: Span) -> DiagV {
    DiagV { code: Some(code), message, span: Some(span) }
}

/// The number of characters of `s` that start before byte `offset`.
pub open spec fn chars_before(s: Seq<char>, offset: int) -> nat
    decreases s.len(),
{
    if s.len() == 0 || offset <= 0 {
        0
    } else {
        1 + chars_before(s.drop_first(), offset - char_width(s[0]))
    }
}

/// A character of `s` starts at byte `offset`, or `s` ends there.
pub open spec fn is_boundary(s: Seq<char>, offset: int) -> bool {
    byte_pos(s, chars_before(s, offset) as int) == offset
}

/// The number of line feeds in `s`.
pub open spec fn newlines(s: Seq<char>) -> nat
    decreases s.len(),
{
    if s.len() == 0 {
        0
    } else {
        newlines(s.drop_last()) + if s.last() == '\n' {
            1nat
        } else {
            0nat
        }
    }
}

/// The index of the first character of the line that holds index `k`.
pub open spec fn line_start(s: Seq<char>, k: int) -> int
    decreases k,
{
    if k <= 0 {
        0
    } else if s[k - 1] == '\n' {
        k
    } else {
        line_start(s, k - 1)
    }
}

/// The index of the line feed that ends the line of index `k`, or the length of `s`.
pub open spec fn line_end(s: Seq<char>, k: int) -> int
    decreases s.len() - k,
{
    if k >= s.len() {
        s.len() as int
    } else if s[k] == '\n' {
        k
    } else {
        line_end(s, k + 1)
    }
}

/// The index of the character at byte `offset`, or the length of the text where `offset`
/// lies beyond it.
pub open spec fn index_at(s: Seq<char>, offset: int) -> int {
    chars_before(s, min_of(offset, byte_len(s) as int)) as int
}

/// `c`, `n` times.
pub open spec fn repeated(c: char, n: nat) -> Seq<char> {
    Seq::new(n, |i: int| c)
}

/// The span starts and ends between characters of `s`, as far as the line that it starts
/// in goes, and does not end before it starts.
pub open spec fn can_underline(s: Seq<char>, span: Span) -> bool {
    let len = byte_len(s) as int;
    let stop = byte_pos(s, line_end(s, index_at(s, span.start as int))) as int;
    &&& is_boundary(s, min_of(span.start as int, len))
    &&& is_boundary(s, min_of(span.end as int, stop))
    &&& min_of(span.start as int, stop) <= min_of(span.end as int, stop)
}

/// The error has no place, or one that can be underlined in one of the files.
pub open spec fn can_show(d: DiagV, files: Seq<SourceFileV>) -> bool {
    d.span matches Some(span) ==> {
        &&& span.file.0 < files.len()
        &&& byte_len(files[span.file.0 as int].src) < usize::MAX
        &&& can_underline(files[span.file.0 as int].src, span)
    }
}

/// The lines of a message that show the source around `span`.
pub open spec fn excerpt(file: SourceFileV, span: Span) -> Seq<char> {
    let s = file.src;
    let k = index_at(s, span.start as int);
    let first = line_start(s, k);
    let last = line_end(s, k);
    let stop = index_at(s, min_of(span.end as int, byte_pos(s, last) as int));
    let num = dec_text(1 + newlines(s.take(k)));
    let gutter = repeated(' ', num.len());
    "  --> "@ + file.path + ":"@ + num + ":"@ + dec_text((k - first + 1) as nat) + "\n"@ + gutter
        + " |\n"@ + num + " | "@ + s.subrange(first, last) + "\n"@ + gutter + " | "@ + repeated(
        ' ',
        (k - first) as nat,
    ) + repeated('^', max_of(stop - k, 1) as nat) + "\n"@
}

/// The whole message.
pub open spec fn rendering(d: DiagV, files: Seq<SourceFileV>) -> Seq<char> {
    let code = match d.code {
        Some(c) => "["@ + c + "]"@,
        None => Seq::empty(),
    };
    let head = "error"@ + code + ": "@ + d.message + "\n"@;
    match d.span {
        Some(span) => head + excerpt(files[span.file.0 as int], span),
        None => head,
    }
}

impl Diagnostic {
    pub fn error(message: String) -> (r: Diagnostic)
        ensures
            r@ == (DiagV { code: None, message: message@, span: None }),
    {
        Diagnostic { code: None, message, span: None }
    }

    pub fn with_code(self, code: &'static str) -> (r: Diagnostic)
        ensures
            r@ == (DiagV { code: Some(code@), ..self@ }),
    {
        Diagnostic { code: Some(code), message: self.message, span: self.span }
    }

    pub fn at(self, span: Span) -> (r: Diagnostic)
        ensures
            r@ == (DiagV { span: Some(span), ..self@ }),
    {
        Diagnostic { code: self.code, message: self.message, span: Some(span) }
    }

    /// The error with this code and message at this place.
    pub(crate) fn coded(code: &'static str, message: String, span: Span) -> (r: Diagnostic)
        ensures
            r@ == diag(code@, message@, span),
    {
        Diagnostic::error(message).with_code(code).at(span)
    }

    /// Whether the place of the error is one that the sources have.
    pub fn can_render(&self, sources: &SourceMap) -> (r: bool)
        ensures
            r == can_show(self@, sources@),
    {
        let span = match self.span {
            Some(span) => span,
            None => {
                return true;
            },
        };
        if span.file.0 as usize >= sources.count() {
            return false;
        }
        let file = sources.get(span.file);
        let len: usize = utf8_len(file.src.as_str());
        if len == usize::MAX {
            return false;
        }
        let cs = chars_of(file.src.as_str());
        let start: usize = if span.start <= len {
            span.start
        } else {
            len
        };
        if !on_boundary(&cs, start) {
            return false;
        }
        let loc = locate(&cs, span.start);
        let stop: usize = position_of(&cs, loc.line_end);
        let end: usize = if span.end <= stop {
            span.end
        } else {
            stop
        };
        let from: usize = if span.start <= stop {
            span.start
        } else {
            stop
        };
        on_boundary(&cs, end) && from <= end
    }

    /// The message as it is shown, with a line feed at its end.
    pub fn render(&self, sources: &SourceMap) -> (out: String)
        requires
            can_show(self@, sources@),
        ensures
            out@ == rendering(self@, sources@),
    {
        let mut out = "error".to_string();
        match self.code {
            Some(c) => {
                out.append("[");
                out.append(c);
                out.append("]");
            },
            None => {},
        }
        out.append(": ");
        out.append(self.message.as_str());
        out.append("\n");
        let ghost head = out@;
        assert(match self.code {
            Some(c) => head =~= "error"@ + ("["@ + c@ + "]"@) + ": "@ + self.message@ + "\n"@,
            None => head =~= "error"@ + Seq::<char>::empty() + ": "@ + self.message@ + "\n"@,
        });
        let span = match self.span {
            Some(span) => span,
            None => {
                return out;
            },
        };
        let file = sources.get(span.file);
        let shown = excerpt_text(file, span);
        out.append(shown.as_str());
        out
    }
}

/// The lines of a message that show the source around `span`.
fn excerpt_text(file: &SourceFile, span: Span) -> (out: String)
    requires
        byte_len(file@.src) < usize::MAX,
        can_underline(file@.src, span),
    ensures
        out@ == excerpt(file@, span),
{
    let cs = chars_of(file.src.as_str());
    let loc = locate(&cs, span.start);
    let k: usize = loc.line_start + (loc.col - 1);
    let mut num = String::new();
    append_dec(&mut num, loc.line as u64);
    assert(num@ =~= dec_text(loc.line as nat));
    let digits: usize = count_chars(num.as_str());
    proof {
        let from = min_of(span.start as int, byte_len(cs@) as int);
        let stop = byte_pos(cs@, loc.line_end as int) as int;
        lemma_byte_pos_mono(cs@, k as int, loc.line_end as int);
        lemma_byte_pos_mono(cs@, loc.line_end as int, cs@.len() as int);
        assert(from <= min_of(span.end as int, stop));
        lemma_chars_before_mono(cs@, from, min_of(span.end as int, stop));
    }
    let stop: usize = advance(&cs, k, loc.line_end, span.end);
    let underline: usize = if stop - k >= 1 {
        stop - k
    } else {
        1
    };
    let mut out = "  --> ".to_string();
    out.append(file.path.as_str());
    out.append(":");
    out.append(num.as_str());
    out.append(":");
    append_dec(&mut out, loc.col as u64);
    out.append("\n");
    append_repeated(&mut out, ' ', digits);
    out.append(" |\n");
    out.append(num.as_str());
    out.append(" | ");
    append_chars(&mut out, &cs, loc.line_start, loc.line_end);
    out.append("\n");
    append_repeated(&mut out, ' ', digits);
    out.append(" | ");
    append_repeated(&mut out, ' ', loc.col - 1);
    append_repeated(&mut out, '^', underline);
    out.append("\n");
    out
}

proof fn lemma_chars_before_mono(s: Seq<char>, a: int, b: int)
    requires
        a <= b,
    ensures
        chars_before(s, a) <= chars_before(s, b),
    decreases s.len(),
{
    if s.len() > 0 && a > 0 {
        lemma_chars_before_mono(s.drop_first(), a - char_width(s[0]), b - char_width(s[0]));
    }
}

/// A place in a text: its line and column, both counted from one, and the indices of the
/// first character of the line and of the line feed (or the end of the text) after it.
pub struct Loc {
    pub line: usize,
    pub col: usize,
    pub line_start: usize,
    pub line_end: usize,
}

/// The place of byte `offset` in a text.
pub fn locate(cs: &Vec<char>, offset: usize) -> (loc: Loc)
    requires
        byte_len(cs@) < usize::MAX,
        is_boundary(cs@, min_of(offset as int, byte_len(cs@) as int)),
    ensures
        ({
            let k = index_at(cs@, offset as int);
            &&& 0 <= k <= cs@.len()
            &&& loc.line == 1 + newlines(cs@.take(k))
            &&& loc.line_start == line_start(cs@, k)
            &&& loc.line_end == line_end(cs@, k)
            &&& loc.col == k - loc.line_start + 1
            &&& loc.line_start <= k <= loc.line_end <= cs@.len()
        }),
{
    let mut line: usize = 1;
    let mut first: usize = 0;
    let mut i: usize = 0;
    let mut at: usize = 0;
    let ghost goal = min_of(offset as int, byte_len(cs@) as int);
    proof {
        lemma_byte_pos_mono(cs@, 0, cs@.len() as int);
        assert(cs@.skip(0) =~= cs@);
        assert(cs@.take(0) =~= Seq::<char>::empty());
        assert(cs@.take(cs@.len() as int) =~= cs@);
    }
    while i < cs.len() && at < offset
        invariant
            0 <= i <= cs@.len(),
            at == byte_pos(cs@, i as int),
            byte_len(cs@) < usize::MAX,
            cs@.len() <= byte_len(cs@),
            goal == min_of(offset as int, byte_len(cs@) as int),
            chars_before(cs@, goal) == i + chars_before(cs@.skip(i as int), goal - at),
            line == 1 + newlines(cs@.take(i as int)),
            line <= 1 + i,
            first == line_start(cs@, i as int),
            first <= i,
        decreases cs@.len() - i,
    {
        proof {
            lemma_byte_pos_step(cs@, i as int);
            lemma_byte_pos_mono(cs@, i + 1, cs@.len() as int);
            assert(cs@.skip(i as int).drop_first() =~= cs@.skip(i + 1));
            assert(cs@.take(i + 1).drop_last() =~= cs@.take(i as int));
            assert(goal > at);
        }
        let c = cs[i];
        at += utf8_width(c);
        i += 1;
        if c == '\n' {
            line += 1;
            first = i;
        }
    }
    proof {
        if i < cs@.len() {
            assert(goal <= at) by {
                lemma_byte_pos_mono(cs@, i as int, cs@.len() as int);
            }
        }
        assert(chars_before(cs@, goal) == i);
    }
    let mut last: usize = i;
    while last < cs.len() && cs[last] != '\n'
        invariant
            i <= last <= cs@.len(),
            line_end(cs@, i as int) == line_end(cs@, last as int),
        decreases cs@.len() - last,
    {
        last += 1;
    }
    Loc { line, col: i - first + 1, line_start: first, line_end: last }
}

/// The index of the character at byte `offset`, looked for from `k` on and no further than
/// `last`.
fn advance(cs: &Vec<char>, k: usize, last: usize, offset: usize) -> (stop: usize)
    requires
        byte_len(cs@) < usize::MAX,
        k <= last <= cs@.len(),
        k <= index_at(cs@, min_of(offset as int, byte_pos(cs@, last as int) as int)),
        is_boundary(cs@, min_of(offset as int, byte_pos(cs@, last as int) as int)),
    ensures
        stop == index_at(cs@, min_of(offset as int, byte_pos(cs@, last as int) as int)),
        k <= stop <= last,
{
    let ghost goal = min_of(offset as int, byte_pos(cs@, last as int) as int);
    let mut i: usize = 0;
    let mut at: usize = 0;
    proof {
        lemma_byte_pos_mono(cs@, 0, cs@.len() as int);
        lemma_byte_pos_mono(cs@, last as int, cs@.len() as int);
        assert(cs@.skip(0) =~= cs@);
        assert(cs@.take(0) =~= Seq::<char>::empty());
    }
    while i < last && at < offset
        invariant
            0 <= i <= last <= cs@.len(),
            at == byte_pos(cs@, i as int),
            byte_len(cs@) < usize::MAX,
            goal == min_of(offset as int, byte_pos(cs@, last as int) as int),
            chars_before(cs@, goal) == i + chars_before(cs@.skip(i as int), goal - at),
        decreases last - i,
    {
        proof {
            lemma_byte_pos_step(cs@, i as int);
            lemma_byte_pos_mono(cs@, i + 1, cs@.len() as int);
            lemma_byte_pos_mono(cs@, i + 1, last as int);
            assert(cs@.skip(i as int).drop_first() =~= cs@.skip(i + 1));
        }
        at += utf8_width(cs[i]);
        i += 1;
    }
    proof {
        lemma_byte_pos_mono(cs@, i as int, last as int);
        assert(goal - at <= 0);
    }
    i
}

/// Whether a character starts at byte `offset`, or the text ends there.
fn on_boundary(cs: &Vec<char>, offset: usize) -> (r: bool)
    requires
        byte_len(cs@) < usize::MAX,
    ensures
        r == is_boundary(cs@, offset as int),
{
    let mut i: usize = 0;
    let mut at: usize = 0;
    proof {
        assert(cs@.skip(0) =~= cs@);
        assert(cs@.take(0) =~= Seq::<char>::empty());
        assert(cs@.take(cs@.len() as int) =~= cs@);
    }
    while i < cs.len() && at < offset
        invariant
            0 <= i <= cs@.len(),
            at == byte_pos(cs@, i as int),
            byte_len(cs@) < usize::MAX,
            byte_len(cs@) == byte_pos(cs@, cs@.len() as int),
            chars_before(cs@, offset as int) == i + chars_before(
                cs@.skip(i as int),
                offset - at,
            ),
        decreases cs@.len() - i,
    {
        proof {
            lemma_byte_pos_step(cs@, i as int);
            lemma_byte_pos_mono(cs@, i + 1, cs@.len() as int);
            assert(cs@.skip(i as int).drop_first() =~= cs@.skip(i + 1));
        }
        at += utf8_width(cs[i]);
        i += 1;
    }
    assert(chars_before(cs@, offset as int) == i);
    at == offset
}

/// The byte offset of the character at index `k`.
fn position_of(cs: &Vec<char>, k: usize) -> (r: usize)
    requires
        byte_len(cs@) < usize::MAX,
        k <= cs@.len(),
    ensures
        r == byte_pos(cs@, k as int),
{
    let mut i: usize = 0;
    let mut at: usize = 0;
    proof {
        assert(cs@.take(0) =~= Seq::<char>::empty());
        assert(cs@.take(cs@.len() as int) =~= cs@);
    }
    while i < k
        invariant
            0 <= i <= k <= cs@.len(),
            at == byte_pos(cs@, i as int),
            byte_len(cs@) < usize::MAX,
            byte_len(cs@) == byte_pos(cs@, cs@.len() as int),
        decreases k - i,
    {
        proof {
            lemma_byte_pos_step(cs@, i as int);
            lemma_byte_pos_mono(cs@, i + 1, cs@.len() as int);
        }
        at += utf8_width(cs[i]);
        i += 1;
    }
    at
}

/// The number of characters of `s`.
fn count_chars(s: &str) -> (n: usize)
    ensures
        n == s@.len(),
{
    let cs = chars_of(s);
    cs.len()
}

/// Appends `c`, `n` times.
pub(crate) fn append_repeated(out: &mut String, c: char, n: usize)
    ensures
        final(out)@ == old(out)@ + repeated(c, n as nat),
{
    let ghost before = out@;
    let mut i: usize = 0;
    while i < n
        invariant
            0 <= i <= n,
            out@ == before + repeated(c, i as nat),
        decreases n - i,
    {
        out.push(c);
        i += 1;
        assert(out@ =~= before + repeated(c, i as nat));
    }
    assert(out@ =~= before + repeated(c, n as nat));
}

/// Appends the characters from index `from` up to `to`.
pub(crate) fn append_chars(out: &mut String, cs: &Vec<char>, from: usize, to: usize)
    requires
        from <= to <= cs@.len(),
    ensures
        final(out)@ == old(out)@ + cs@.subrange(from as int, to as int),
{
    let ghost before = out@;
    let mut i: usize = from;
    while i < to
        invariant
            from <= i <= to <= cs@.len(),
            out@ == before + cs@.subrange(from as int, i as int),
        decreases to - i,
    {
        out.push(cs[i]);
        i += 1;
        assert(out@ =~= before + cs@.subrange(from as int, i as int));
    }
}

} // verus!
