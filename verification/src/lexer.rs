//! The lexer: turns source text into tokens.
//!
//! White space separates tokens, and a comment runs from `#` to the end of its line. Where
//! several tokens could start at one place, the longest is taken.
use crate::diagnostics::{append_chars, Diagnostic};
use crate::span::{FileId, Span};
use crate::text::{chars_of, text_eq, utf8_len, utf8_width};
pub use crate::token::{Segment, Tok, Token};
use vstd::prelude::*;
#[allow(unused_imports)]
use crate::diagnostics::{diag, line_end, DiagV};
#[allow(unused_imports)]
use crate::text::{
    byte_len, byte_pos, char_is_alphabetic, char_is_alphanumeric, char_is_whitespace, char_width,
    lemma_byte_len_concat, lemma_byte_pos_mono, lemma_byte_pos_step,
};
#[allow(unused_imports)]
use crate::token::{segments_view, tokens_view, SegmentV, TokV, TokenV};

verus! {

/// A decimal digit.
pub open spec fn is_digit(c: char) -> bool {
    '0' <= c <= '9'
}

/// White space: of the ASCII characters, the space and those from tab to carriage return.
pub open spec fn is_space(c: char) -> bool {
    if (c as u32) < 128 {
        c == ' ' || 9 <= (c as u32) <= 13
    } else {
        char_is_whitespace(c)
    }
}

/// A letter: of the ASCII characters, those from A to Z, small or capital.
pub open spec fn is_letter(c: char) -> bool {
    if (c as u32) < 128 {
        'a' <= c <= 'z' || 'A' <= c <= 'Z'
    } else {
        char_is_alphabetic(c)
    }
}

/// A character that a name can start with.
pub open spec fn is_name_start(c: char) -> bool {
    is_letter(c) || c == '_'
}

/// A character that a name can go on with.
pub open spec fn is_name_char(c: char) -> bool {
    if (c as u32) < 128 {
        is_letter(c) || is_digit(c) || c == '_'
    } else {
        char_is_alphanumeric(c)
    }
}

/// Where the run of digits that goes on at `i` ends.
pub open spec fn digits_end(cs: Seq<char>, i: int) -> int
    decreases cs.len() - i,
{
    if i < cs.len() && is_digit(cs[i]) {
        digits_end(cs, i + 1)
    } else {
        i
    }
}

/// Where the name that goes on at `i` ends.
pub open spec fn name_end(cs: Seq<char>, i: int) -> int
    decreases cs.len() - i,
{
    if i < cs.len() && is_name_char(cs[i]) {
        name_end(cs, i + 1)
    } else {
        i
    }
}

/// The number that a row of digits denotes.
pub open spec fn digits_value(s: Seq<char>) -> nat
    decreases s.len(),
{
    if s.len() == 0 {
        0
    } else {
        digits_value(s.drop_last()) * 10 + (s.last() as u32 - '0' as u32) as nat
    }
}

/// The span of the characters from index `i` up to `j`.
pub open spec fn chars_span(cs: Seq<char>, i: int, j: int, file: FileId) -> Span {
    Span { file, start: byte_pos(cs, i) as usize, end: byte_pos(cs, j) as usize }
}

/// The keyword that a word spells.
pub open spec fn keyword(s: Seq<char>) -> Option<Tok> {
    if s == "fn"@ {
        Some(Tok::Fn)
    } else if s == "struct"@ {
        Some(Tok::Struct)
    } else if s == "enum"@ {
        Some(Tok::Enum)
    } else if s == "match"@ {
        Some(Tok::Match)
    } else if s == "import"@ {
        Some(Tok::Import)
    } else if s == "pub"@ {
        Some(Tok::Pub)
    } else if s == "let"@ {
        Some(Tok::Let)
    } else if s == "if"@ {
        Some(Tok::If)
    } else if s == "else"@ {
        Some(Tok::Else)
    } else if s == "while"@ {
        Some(Tok::While)
    } else if s == "for"@ {
        Some(Tok::For)
    } else if s == "in"@ {
        Some(Tok::In)
    } else if s == "break"@ {
        Some(Tok::Break)
    } else if s == "continue"@ {
        Some(Tok::Continue)
    } else if s == "return"@ {
        Some(Tok::Return)
    } else if s == "print"@ {
        Some(Tok::Print)
    } else if s == "true"@ {
        Some(Tok::True)
    } else if s == "false"@ {
        Some(Tok::False)
    } else if s == "null"@ {
        Some(Tok::Null)
    } else {
        None
    }
}

/// The operator of three characters.
pub open spec fn operator3(a: char, b: char, c: char) -> Option<Tok> {
    match (a, b, c) {
        ('<', '<', '=') => Some(Tok::ShlEq),
        ('>', '>', '=') => Some(Tok::ShrEq),
        _ => None,
    }
}

/// The operator of two characters.
pub open spec fn operator2(a: char, b: char) -> Option<Tok> {
    match (a, b) {
        ('=', '=') => Some(Tok::EqEq),
        ('!', '=') => Some(Tok::NotEq),
        ('<', '=') => Some(Tok::Le),
        ('>', '=') => Some(Tok::Ge),
        ('&', '&') => Some(Tok::AmpAmp),
        ('|', '|') => Some(Tok::PipePipe),
        ('-', '>') => Some(Tok::Arrow),
        ('=', '>') => Some(Tok::FatArrow),
        ('+', '=') => Some(Tok::PlusEq),
        ('-', '=') => Some(Tok::MinusEq),
        ('*', '=') => Some(Tok::StarEq),
        ('/', '=') => Some(Tok::SlashEq),
        ('%', '=') => Some(Tok::PercentEq),
        ('<', '<') => Some(Tok::Shl),
        ('>', '>') => Some(Tok::Shr),
        ('&', '=') => Some(Tok::AmpEq),
        ('|', '=') => Some(Tok::PipeEq),
        ('^', '=') => Some(Tok::CaretEq),
        _ => None,
    }
}

/// The operator or punctuation of one character.
pub open spec fn operator1(a: char) -> Option<Tok> {
    match a {
        '(' => Some(Tok::LParen),
        ')' => Some(Tok::RParen),
        '{' => Some(Tok::LBrace),
        '}' => Some(Tok::RBrace),
        '[' => Some(Tok::LBracket),
        ']' => Some(Tok::RBracket),
        ',' => Some(Tok::Comma),
        ';' => Some(Tok::Semicolon),
        ':' => Some(Tok::Colon),
        '.' => Some(Tok::Dot),
        '=' => Some(Tok::Assign),
        '+' => Some(Tok::Plus),
        '-' => Some(Tok::Minus),
        '*' => Some(Tok::Star),
        '/' => Some(Tok::Slash),
        '%' => Some(Tok::Percent),
        '<' => Some(Tok::Lt),
        '>' => Some(Tok::Gt),
        '!' => Some(Tok::Bang),
        '&' => Some(Tok::Amp),
        '|' => Some(Tok::Pipe),
        '^' => Some(Tok::Caret),
        '~' => Some(Tok::Tilde),
        _ => None,
    }
}

/// What stands at one place of the source: something to skip, a token, each with where it
/// ends, or an error.
pub ghost enum Scan {
    Skip(int),
    Found(TokV, int),
    Fail(DiagV),
}

/// What stands at one place of a string literal: a character of its text, an interpolated
/// expression, each with where it ends, the closing quote, or an error.
pub ghost enum Piece {
    Plain(char, int),
    Code(int),
    Close,
    Fail(DiagV),
}

/// What `\\` followed by `c` stands for.
pub open spec fn escaped(c: char) -> Option<char> {
    match c {
        'n' => Some('\n'),
        't' => Some('\t'),
        'r' => Some('\r'),
        '\\' => Some('\\'),
        '"' => Some('"'),
        '0' => Some('\0'),
        _ => None,
    }
}

/// Where the interpolated expression that goes on at `i` stops: at a brace, a quote, a line
/// feed or the end.
pub open spec fn code_end(cs: Seq<char>, i: int) -> int
    decreases cs.len() - i,
{
    if i < cs.len() && cs[i] != '\n' && cs[i] != '}' && cs[i] != '"' && cs[i] != '{' {
        code_end(cs, i + 1)
    } else {
        i
    }
}

/// What stands at `i` in the string literal that starts at `start`.
pub open spec fn piece(cs: Seq<char>, i: int, start: int, file: FileId) -> Piece {
    let n = cs.len();
    if !(0 <= i < n) || cs[i] == '\n' {
        Piece::Fail(diag("E0004"@, "文字列が閉じられていません"@, chars_span(cs, start, i, file)))
    } else if cs[i] == '"' {
        Piece::Close
    } else if cs[i] == '\\' {
        if i + 1 >= n {
            Piece::Fail(
                diag("E0004"@, "文字列が閉じられていません"@, chars_span(cs, start, i + 1, file)),
            )
        } else {
            match escaped(cs[i + 1]) {
                Some(c) => Piece::Plain(c, i + 2),
                None => Piece::Fail(
                    diag(
                        "E0004"@,
                        "不正なエスケープ: \\"@.push(cs[i + 1]),
                        chars_span(cs, i, i + 2, file),
                    ),
                ),
            }
        }
    } else if cs[i] == '{' && i + 1 < n && cs[i + 1] == '{' {
        Piece::Plain('{', i + 2)
    } else if cs[i] == '}' {
        if i + 1 < n && cs[i + 1] == '}' {
            Piece::Plain('}', i + 2)
        } else {
            Piece::Fail(
                diag(
                    "E0004"@,
                    "文字列中の } は }} と書いてください（補間の閉じは { と対応します）"@,
                    chars_span(cs, i, i + 1, file),
                ),
            )
        }
    } else if cs[i] == '{' {
        let e = code_end(cs, i + 1);
        if e >= n || cs[e] == '\n' {
            Piece::Fail(
                diag("E0004"@, "補間 {…} が閉じられていません"@, chars_span(cs, start, e, file)),
            )
        } else if cs[e] == '}' {
            Piece::Code(e + 1)
        } else if cs[e] == '"' {
            Piece::Fail(
                diag(
                    "E0004"@,
                    "補間 {…} が閉じられていません（補間式に \" は使えません。先に変数へ取り出してください）"@,
                    chars_span(cs, start, e, file),
                ),
            )
        } else {
            Piece::Fail(
                diag(
                    "E0004"@,
                    "補間式に { は書けません（先に変数へ取り出してください）"@,
                    chars_span(cs, e, e + 1, file),
                ),
            )
        }
    } else {
        Piece::Plain(cs[i], i + 1)
    }
}

/// The rest of a string literal from `i` on, after the segments `segs` and the text `cur`.
pub open spec fn scan_string(
    cs: Seq<char>,
    i: int,
    start: int,
    file: FileId,
    segs: Seq<SegmentV>,
    cur: Seq<char>,
) -> Scan
    decreases cs.len() - i,
{
    proof {
        lemma_piece_ahead(cs, i, start, file);
    }
    match piece(cs, i, start, file) {
        Piece::Plain(c, j) => scan_string(cs, j, start, file, segs, cur.push(c)),
        Piece::Code(j) => scan_string(
            cs,
            j,
            start,
            file,
            segs.push(SegmentV::Lit(cur)).push(
                SegmentV::Expr {
                    src: cs.subrange(i + 1, j - 1),
                    offset: byte_pos(cs, i + 1) as usize,
                },
            ),
            Seq::empty(),
        ),
        Piece::Close => Scan::Found(
            if segs.len() == 0 {
                TokV::Str(cur)
            } else {
                TokV::InterpStr(segs.push(SegmentV::Lit(cur)))
            },
            i + 1,
        ),
        Piece::Fail(d) => Scan::Fail(d),
    }
}

/// Whether the digits that end at `e` go on as a decimal fraction.
pub open spec fn is_fraction(cs: Seq<char>, e: int) -> bool {
    e + 1 < cs.len() && cs[e] == '.' && is_digit(cs[e + 1])
}

/// The number that starts at `i`.
pub open spec fn scan_number(cs: Seq<char>, i: int, file: FileId) -> Scan {
    let e = digits_end(cs, i + 1);
    if is_fraction(cs, e) {
        let f = digits_end(cs, e + 2);
        Scan::Found(TokV::Float(cs.subrange(i, f)), f)
    } else {
        let text = cs.subrange(i, e);
        if digits_value(text) <= i64::MAX {
            Scan::Found(TokV::Int(digits_value(text) as i64), e)
        } else {
            Scan::Fail(diag("E0003"@, "数値が大きすぎます: "@ + text, chars_span(cs, i, e, file)))
        }
    }
}

/// The name or keyword that starts at `i`.
pub open spec fn scan_word(cs: Seq<char>, i: int) -> Scan {
    let e = name_end(cs, i + 1);
    let word = cs.subrange(i, e);
    match keyword(word) {
        Some(k) => Scan::Found(TokV::Sym(k), e),
        None => Scan::Found(TokV::Ident(word), e),
    }
}

/// The operator or punctuation that starts at `i`.
pub open spec fn scan_operator(cs: Seq<char>, i: int, file: FileId) -> Scan {
    let n = cs.len();
    if i + 2 < n && operator3(cs[i], cs[i + 1], cs[i + 2]) is Some {
        Scan::Found(TokV::Sym(operator3(cs[i], cs[i + 1], cs[i + 2])->0), i + 3)
    } else if i + 1 < n && operator2(cs[i], cs[i + 1]) is Some {
        Scan::Found(TokV::Sym(operator2(cs[i], cs[i + 1])->0), i + 2)
    } else {
        match operator1(cs[i]) {
            Some(k) => Scan::Found(TokV::Sym(k), i + 1),
            None => Scan::Fail(
                diag(
                    "E0001"@,
                    "不正な文字: '"@.push(cs[i]) + "'"@,
                    chars_span(cs, i, i + 1, file),
                ),
            ),
        }
    }
}

/// What stands at `i`.
pub open spec fn scan(cs: Seq<char>, i: int, file: FileId) -> Scan {
    let c = cs[i];
    if is_space(c) {
        Scan::Skip(i + 1)
    } else if c == '#' {
        Scan::Skip(line_end(cs, i + 1))
    } else if c == '"' {
        scan_string(cs, i + 1, i, file, Seq::empty(), Seq::empty())
    } else if is_digit(c) {
        scan_number(cs, i, file)
    } else if is_name_start(c) {
        scan_word(cs, i)
    } else {
        scan_operator(cs, i, file)
    }
}

/// The tokens of the source from index `i` on, or its first error.
pub open spec fn lex_from(cs: Seq<char>, i: int, file: FileId) -> Result<Seq<TokenV>, DiagV>
    decreases cs.len() - i,
{
    if !(0 <= i < cs.len()) {
        Ok(
            seq![
                TokenV {
                    kind: TokV::Sym(Tok::Eof),
                    span: chars_span(cs, cs.len() as int, cs.len() as int, file),
                },
            ],
        )
    } else {
        proof {
            lemma_scan_ahead(cs, i, file);
        }
        match scan(cs, i, file) {
            Scan::Skip(j) => lex_from(cs, j, file),
            Scan::Found(kind, j) => prepend(
                seq![TokenV { kind, span: chars_span(cs, i, j, file) }],
                lex_from(cs, j, file),
            ),
            Scan::Fail(d) => Err(d),
        }
    }
}

/// Tokens in front of a result.
pub open spec fn prepend(ts: Seq<TokenV>, r: Result<Seq<TokenV>, DiagV>) -> Result<
    Seq<TokenV>,
    DiagV,
> {
    match r {
        Ok(rest) => Ok(ts + rest),
        Err(d) => Err(d),
    }
}

/// The tokens of a source text, or its first error.
pub open spec fn lexed(src: Seq<char>, file: FileId) -> Result<Seq<TokenV>, DiagV> {
    lex_from(src, 0, file)
}

proof fn lemma_digits_end(cs: Seq<char>, i: int)
    requires
        0 <= i <= cs.len(),
    ensures
        i <= digits_end(cs, i) <= cs.len(),
        forall|k: int| i <= k < digits_end(cs, i) ==> is_digit(cs[k]),
    decreases cs.len() - i,
{
    if i < cs.len() && is_digit(cs[i]) {
        lemma_digits_end(cs, i + 1);
    }
}

proof fn lemma_name_end(cs: Seq<char>, i: int)
    requires
        0 <= i <= cs.len(),
    ensures
        i <= name_end(cs, i) <= cs.len(),
    decreases cs.len() - i,
{
    if i < cs.len() && is_name_char(cs[i]) {
        lemma_name_end(cs, i + 1);
    }
}

proof fn lemma_line_end(cs: Seq<char>, i: int)
    requires
        0 <= i <= cs.len(),
    ensures
        i <= line_end(cs, i) <= cs.len(),
    decreases cs.len() - i,
{
    if i < cs.len() && cs[i] != '\n' {
        lemma_line_end(cs, i + 1);
    }
}

proof fn lemma_code_end(cs: Seq<char>, i: int)
    requires
        0 <= i <= cs.len(),
    ensures
        i <= code_end(cs, i) <= cs.len(),
        code_end(cs, i) < cs.len() ==> {
            let c = cs[code_end(cs, i)];
            c == '\n' || c == '}' || c == '"' || c == '{'
        },
    decreases cs.len() - i,
{
    if i < cs.len() && cs[i] != '\n' && cs[i] != '}' && cs[i] != '"' && cs[i] != '{' {
        lemma_code_end(cs, i + 1);
    }
}

/// What stands in a string literal ends after where it starts.
pub proof fn lemma_piece_ahead(cs: Seq<char>, i: int, start: int, file: FileId)
    ensures
        match piece(cs, i, start, file) {
            Piece::Plain(_, j) => i < j <= cs.len(),
            Piece::Code(j) => i + 1 < j <= cs.len(),
            Piece::Close => i < cs.len(),
            Piece::Fail(_) => true,
        },
{
    if 0 <= i < cs.len() {
        lemma_code_end(cs, i + 1);
    }
}

proof fn lemma_string_ahead(
    cs: Seq<char>,
    i: int,
    start: int,
    file: FileId,
    segs: Seq<SegmentV>,
    cur: Seq<char>,
)
    requires
        0 <= i,
    ensures
        scan_string(cs, i, start, file, segs, cur) matches Scan::Found(_, j) ==> i < j <= cs.len(),
        !(scan_string(cs, i, start, file, segs, cur) is Skip),
    decreases cs.len() - i,
{
    lemma_piece_ahead(cs, i, start, file);
    match piece(cs, i, start, file) {
        Piece::Plain(c, j) => lemma_string_ahead(cs, j, start, file, segs, cur.push(c)),
        Piece::Code(j) => lemma_string_ahead(
            cs,
            j,
            start,
            file,
            segs.push(SegmentV::Lit(cur)).push(
                SegmentV::Expr {
                    src: cs.subrange(i + 1, j - 1),
                    offset: byte_pos(cs, i + 1) as usize,
                },
            ),
            Seq::empty(),
        ),
        _ => {},
    }
}

/// What stands in the source ends after where it starts.
pub proof fn lemma_scan_ahead(cs: Seq<char>, i: int, file: FileId)
    ensures
        0 <= i < cs.len() ==> match scan(cs, i, file) {
            Scan::Skip(j) => i < j <= cs.len(),
            Scan::Found(_, j) => i < j <= cs.len(),
            Scan::Fail(_) => true,
        },
{
    if 0 <= i < cs.len() {
        lemma_line_end(cs, i + 1);
        lemma_digits_end(cs, i + 1);
        if is_fraction(cs, digits_end(cs, i + 1)) {
            lemma_digits_end(cs, digits_end(cs, i + 1) + 2);
        }
        lemma_name_end(cs, i + 1);
        lemma_string_ahead(cs, i + 1, i, file, Seq::empty(), Seq::empty());
    }
}

/// The byte offset of every character, and after them the length of the text in bytes.
fn offsets_of(cs: &Vec<char>) -> (offs: Vec<usize>)
    requires
        byte_len(cs@) <= usize::MAX,
    ensures
        offs@.len() == cs@.len() + 1,
        forall|k: int| 0 <= k <= cs@.len() ==> offs@[k] == byte_pos(cs@, k),
{
    let mut offs: Vec<usize> = Vec::new();
    let mut at: usize = 0;
    let mut i: usize = 0;
    assert(cs@.take(0) =~= Seq::<char>::empty());
    offs.push(0);
    while i < cs.len()
        invariant
            0 <= i <= cs@.len(),
            byte_len(cs@) <= usize::MAX,
            at == byte_pos(cs@, i as int),
            offs@.len() == i + 1,
            forall|k: int| 0 <= k <= i ==> offs@[k] == byte_pos(cs@, k),
        decreases cs@.len() - i,
    {
        proof {
            lemma_byte_pos_step(cs@, i as int);
            lemma_byte_pos_mono(cs@, i + 1, cs@.len() as int);
        }
        at += utf8_width(cs[i]);
        i += 1;
        offs.push(at);
    }
    offs
}

/// A source text taken apart: its characters and their byte offsets.
struct Source {
    cs: Vec<char>,
    offs: Vec<usize>,
    file: FileId,
}

impl Source {
    spec fn ok(self) -> bool {
        &&& self.offs@.len() == self.cs@.len() + 1
        &&& forall|k: int| 0 <= k <= self.cs@.len() ==> self.offs@[k] == byte_pos(self.cs@, k)
    }

    /// The byte offset of the character at index `i`, or the length of the text in bytes.
    fn byte_at(&self, i: usize) -> (r: usize)
        requires
            self.ok(),
            i <= self.cs@.len(),
        ensures
            r == byte_pos(self.cs@, i as int),
    {
        self.offs[i]
    }

    /// The span of the characters from index `i` up to `j`.
    fn span(&self, i: usize, j: usize) -> (r: Span)
        requires
            self.ok(),
            i <= self.cs@.len(),
            j <= self.cs@.len(),
        ensures
            r == chars_span(self.cs@, i as int, j as int, self.file),
    {
        Span::new(self.file, self.byte_at(i), self.byte_at(j))
    }

    /// The characters from index `i` up to `j`.
    fn text(&self, i: usize, j: usize) -> (r: String)
        requires
            i <= j <= self.cs@.len(),
        ensures
            r@ == self.cs@.subrange(i as int, j as int),
    {
        let mut out = String::new();
        append_chars(&mut out, &self.cs, i, j);
        assert(out@ =~= self.cs@.subrange(i as int, j as int));
        out
    }

    fn string_error(&self, message: &str, i: usize, j: usize) -> (r: Diagnostic)
        requires
            self.ok(),
            i <= self.cs@.len(),
            j <= self.cs@.len(),
        ensures
            r@ == diag("E0004"@, message@, chars_span(self.cs@, i as int, j as int, self.file)),
            i <= j ==> points_in(r@, self.cs@, self.file),
    {
        Diagnostic::coded("E0004", message.to_string(), self.span(i, j))
    }

    /// Where the interpolated expression that goes on at `i` stops.
    fn code_stop(&self, i: usize) -> (e: usize)
        requires
            i <= self.cs@.len(),
        ensures
            e == code_end(self.cs@, i as int),
            i <= e <= self.cs@.len(),
    {
        let mut e: usize = i;
        while e < self.cs.len() && self.cs[e] != '\n' && self.cs[e] != '}' && self.cs[e] != '"'
            && self.cs[e] != '{'
            invariant
                i <= e <= self.cs@.len(),
                code_end(self.cs@, i as int) == code_end(self.cs@, e as int),
            decreases self.cs@.len() - e,
        {
            e += 1;
        }
        e
    }

    /// The string literal whose opening quote stands at `start`.
    fn string(&self, start: usize) -> (r: Result<(Tok, usize), Diagnostic>)
        requires
            self.ok(),
            start < self.cs@.len(),
        ensures
            ({
                let want = scan_string(
                    self.cs@,
                    start + 1,
                    start as int,
                    self.file,
                    Seq::empty(),
                    Seq::empty(),
                );
                match r {
                    Ok((t, j)) => want == Scan::Found(t@, j as int) && start < j <= self.cs@.len()
                        && segments_lie_in(t@, self.cs@),
                    Err(d) => want == Scan::Fail(d@) && points_in(d@, self.cs@, self.file),
                }
            }),
    {
        let n: usize = self.cs.len();
        let mut i: usize = start + 1;
        let mut cur = String::new();
        let mut segments: Vec<Segment> = Vec::new();
        let ghost want = scan_string(
            self.cs@,
            start + 1,
            start as int,
            self.file,
            Seq::empty(),
            Seq::empty(),
        );
        assert(segments_view(segments@) =~= Seq::empty());
        loop
            invariant
                self.ok(),
                n == self.cs@.len(),
                start < i <= n,
                want == scan_string(
                    self.cs@,
                    start + 1,
                    start as int,
                    self.file,
                    Seq::empty(),
                    Seq::empty(),
                ),
                want == scan_string(
                    self.cs@,
                    i as int,
                    start as int,
                    self.file,
                    segments_view(segments@),
                    cur@,
                ),
                forall|k: int| #![auto]
                    0 <= k < segments@.len() ==> segment_lies_in(segments@[k]@, self.cs@),
            decreases n - i,
        {
            proof {
                lemma_piece_ahead(self.cs@, i as int, start as int, self.file);
            }
            if i >= n || self.cs[i] == '\n' {
                return Err(self.string_error("文字列が閉じられていません", start, i));
            }
            let ch = self.cs[i];
            if ch == '"' {
                if segments.len() == 0 {
                    return Ok((Tok::Str(cur), i + 1));
                }
                let ghost before = segments_view(segments@);
                segments.push(Segment::Lit(cur));
                assert(segments_view(segments@) =~= before.push(SegmentV::Lit(cur@)));
                return Ok((Tok::InterpStr(segments), i + 1));
            }
            if ch == '\\' {
                if i + 1 >= n {
                    return Err(self.string_error("文字列が閉じられていません", start, n));
                }
                let decoded = match self.cs[i + 1] {
                    'n' => '\n',
                    't' => '\t',
                    'r' => '\r',
                    '\\' => '\\',
                    '"' => '"',
                    '0' => '\0',
                    other => {
                        let mut message = "不正なエスケープ: \\".to_string();
                        message.push(other);
                        return Err(self.string_error(message.as_str(), i, i + 2));
                    },
                };
                cur.push(decoded);
                i += 2;
                continue;
            }
            if ch == '{' && i + 1 < n && self.cs[i + 1] == '{' {
                cur.push('{');
                i += 2;
                continue;
            }
            if ch == '}' {
                if i + 1 < n && self.cs[i + 1] == '}' {
                    cur.push('}');
                    i += 2;
                    continue;
                }
                return Err(
                    self.string_error(
                        "文字列中の } は }} と書いてください（補間の閉じは { と対応します）",
                        i,
                        i + 1,
                    ),
                );
            }
            if ch == '{' {
                let e: usize = self.code_stop(i + 1);
                proof {
                    lemma_code_end(self.cs@, i + 1);
                }
                if e >= n || self.cs[e] == '\n' {
                    return Err(self.string_error("補間 {…} が閉じられていません", start, e));
                }
                if self.cs[e] == '"' {
                    return Err(
                        self.string_error(
                            "補間 {…} が閉じられていません（補間式に \" は使えません。先に変数へ取り出してください）",
                            start,
                            e,
                        ),
                    );
                }
                if self.cs[e] == '{' {
                    return Err(
                        self.string_error(
                            "補間式に { は書けません（先に変数へ取り出してください）",
                            e,
                            e + 1,
                        ),
                    );
                }
                let ghost before = segments_view(segments@);
                let ghost text = cur@;
                segments.push(Segment::Lit(cur));
                let src = self.text(i + 1, e);
                let offset: usize = self.byte_at(i + 1);
                segments.push(Segment::Expr { src, offset });
                proof {
                    assert(segments_view(segments@) =~= before.push(SegmentV::Lit(text)).push(
                        SegmentV::Expr { src: self.cs@.subrange(i + 1, e as int), offset },
                    ));
                    lemma_part_lies_in(self.cs@, i + 1, e as int);
                }
                cur = String::new();
                i = e + 1;
                continue;
            }
            cur.push(ch);
            i += 1;
        }
    }

    /// Where the run of digits that goes on at `i` ends.
    fn digits_stop(&self, i: usize) -> (e: usize)
        requires
            i <= self.cs@.len(),
        ensures
            e == digits_end(self.cs@, i as int),
            i <= e <= self.cs@.len(),
    {
        let mut e: usize = i;
        while e < self.cs.len() && '0' <= self.cs[e] && self.cs[e] <= '9'
            invariant
                i <= e <= self.cs@.len(),
                digits_end(self.cs@, i as int) == digits_end(self.cs@, e as int),
            decreases self.cs@.len() - e,
        {
            e += 1;
        }
        e
    }

    /// The number that starts at `i`.
    fn number(&self, i: usize) -> (r: Result<(Tok, usize), Diagnostic>)
        requires
            self.ok(),
            i < self.cs@.len(),
            is_digit(self.cs@[i as int]),
        ensures
            match r {
                Ok((t, j)) => scan_number(self.cs@, i as int, self.file) == Scan::Found(
                    t@,
                    j as int,
                ) && i < j <= self.cs@.len() && segments_lie_in(t@, self.cs@),
                Err(d) => scan_number(self.cs@, i as int, self.file) == Scan::Fail(d@)
                    && points_in(d@, self.cs@, self.file),
            },
    {
        let n: usize = self.cs.len();
        let e: usize = self.digits_stop(i + 1);
        if n - e > 1 && self.cs[e] == '.' && '0' <= self.cs[e + 1]
            && self.cs[e + 1] <= '9' {
            let f: usize = self.digits_stop(e + 2);
            return Ok((Tok::Float(self.text(i, f)), f));
        }
        proof {
            lemma_digits_end(self.cs@, i + 1);
        }
        match self.value(i, e) {
            Some(v) => Ok((Tok::Int(v), e)),
            None => {
                let text = self.text(i, e);
                let message = "数値が大きすぎます: ".to_string().concat(text.as_str());
                Err(Diagnostic::coded("E0003", message, self.span(i, e)))
            },
        }
    }

    /// The number that the digits from `i` up to `e` denote, if it fits.
    fn value(&self, i: usize, e: usize) -> (r: Option<i64>)
        requires
            i <= e <= self.cs@.len(),
            forall|k: int| i <= k < e ==> is_digit(self.cs@[k]),
        ensures
            ({
                let v = digits_value(self.cs@.subrange(i as int, e as int));
                match r {
                    Some(x) => v <= i64::MAX && x == v,
                    None => v > i64::MAX,
                }
            }),
    {
        let mut v: i64 = 0;
        let mut k: usize = i;
        assert(self.cs@.subrange(i as int, i as int) =~= Seq::<char>::empty());
        while k < e
            invariant
                i <= k <= e <= self.cs@.len(),
                forall|j: int| i <= j < e ==> is_digit(self.cs@[j]),
                0 <= v,
                v == digits_value(self.cs@.subrange(i as int, k as int)),
            decreases e - k,
        {
            let d: i64 = (self.cs[k] as u32 - '0' as u32) as i64;
            proof {
                let next = self.cs@.subrange(i as int, k + 1);
                assert(next.drop_last() =~= self.cs@.subrange(i as int, k as int));
                assert(next.last() == self.cs@[k as int]);
                lemma_value_grows(self.cs@, i as int, k + 1, e as int);
            }
            if v > (i64::MAX - d) / 10 {
                return None;
            }
            v = v * 10 + d;
            k += 1;
        }
        Some(v)
    }

    /// Where the name that goes on at `i` ends.
    fn name_stop(&self, i: usize) -> (e: usize)
        requires
            i <= self.cs@.len(),
        ensures
            e == name_end(self.cs@, i as int),
            i <= e <= self.cs@.len(),
    {
        let mut e: usize = i;
        while e < self.cs.len() && (self.cs[e].is_alphanumeric() || self.cs[e] == '_')
            invariant
                i <= e <= self.cs@.len(),
                name_end(self.cs@, i as int) == name_end(self.cs@, e as int),
            decreases self.cs@.len() - e,
        {
            e += 1;
        }
        e
    }

    /// The name or keyword that starts at `i`.
    fn word(&self, i: usize) -> (r: (Tok, usize))
        requires
            i < self.cs@.len(),
        ensures
            scan_word(self.cs@, i as int) == Scan::Found(r.0@, r.1 as int),
            i < r.1 <= self.cs@.len(),
            segments_lie_in(r.0@, self.cs@),
    {
        let n: usize = self.cs.len();
        let e: usize = self.name_stop(i + 1);
        let word = self.text(i, e);
        match keyword_of(word.as_str()) {
            Some(k) => (k, e),
            None => (Tok::Ident(word), e),
        }
    }

    /// The operator or punctuation that starts at `i`.
    fn operator(&self, i: usize) -> (r: Result<(Tok, usize), Diagnostic>)
        requires
            self.ok(),
            i < self.cs@.len(),
        ensures
            match r {
                Ok((t, j)) => scan_operator(self.cs@, i as int, self.file) == Scan::Found(
                    t@,
                    j as int,
                ) && i < j <= self.cs@.len() && segments_lie_in(t@, self.cs@),
                Err(d) => scan_operator(self.cs@, i as int, self.file) == Scan::Fail(d@)
                    && points_in(d@, self.cs@, self.file),
            },
    {
        let n: usize = self.cs.len();
        if n - i > 2 {
            if let Some(k) = operator3_of(self.cs[i], self.cs[i + 1], self.cs[i + 2]) {
                return Ok((k, i + 3));
            }
        }
        if n - i > 1 {
            if let Some(k) = operator2_of(self.cs[i], self.cs[i + 1]) {
                return Ok((k, i + 2));
            }
        }
        match operator1_of(self.cs[i]) {
            Some(k) => Ok((k, i + 1)),
            None => {
                let mut message = "不正な文字: '".to_string();
                message.push(self.cs[i]);
                message.append("'");
                Err(Diagnostic::coded("E0001", message, self.span(i, i + 1)))
            },
        }
    }

    /// Where the line that goes on at `i` ends.
    fn line_stop(&self, i: usize) -> (e: usize)
        requires
            i <= self.cs@.len(),
        ensures
            e == line_end(self.cs@, i as int),
            i <= e <= self.cs@.len(),
    {
        let mut e: usize = i;
        while e < self.cs.len() && self.cs[e] != '\n'
            invariant
                i <= e <= self.cs@.len(),
                line_end(self.cs@, i as int) == line_end(self.cs@, e as int),
            decreases self.cs@.len() - e,
        {
            e += 1;
        }
        e
    }
}

/// The span covers whole characters of the text.
pub open spec fn is_place(s: Span, cs: Seq<char>, file: FileId) -> bool {
    exists|i: int, j: int|
        0 <= i <= j <= cs.len() && s == #[trigger] chars_span(cs, i, j, file)
}

/// The error points at characters of the text.
pub open spec fn points_in(d: DiagV, cs: Seq<char>, file: FileId) -> bool {
    d.span matches Some(s) && is_place(s, cs, file)
}

/// Such a span does not reach beyond the text.
pub proof fn lemma_place_in_bounds(s: Span, cs: Seq<char>, file: FileId)
    requires
        is_place(s, cs, file),
        byte_len(cs) <= usize::MAX,
    ensures
        s.file == file,
        s.start <= s.end <= byte_len(cs),
{
    let (i, j) = choose|i: int, j: int|
        0 <= i <= j <= cs.len() && s == #[trigger] chars_span(cs, i, j, file);
    lemma_byte_pos_mono(cs, i, j);
    lemma_byte_pos_mono(cs, j, cs.len() as int);
}

/// The segment's source is a proper part of `cs`, and its offset is where it stands there.
pub open spec fn segment_lies_in(s: SegmentV, cs: Seq<char>) -> bool {
    s matches SegmentV::Expr { src, offset } ==> {
        &&& src.len() < cs.len()
        &&& offset + byte_len(src) <= byte_len(cs)
    }
}

/// The sources of the token's segments are proper parts of `cs`.
pub open spec fn segments_lie_in(t: TokV, cs: Seq<char>) -> bool {
    t matches TokV::InterpStr(segs) ==> forall|k: int| #![auto]
        0 <= k < segs.len() ==> segment_lies_in(segs[k], cs)
}

proof fn lemma_part_lies_in(cs: Seq<char>, i: int, e: int)
    requires
        0 < i <= e <= cs.len(),
    ensures
        cs.subrange(i, e).len() < cs.len(),
        byte_pos(cs, i) + byte_len(cs.subrange(i, e)) <= byte_len(cs),
{
    assert(cs.take(e) =~= cs.take(i) + cs.subrange(i, e));
    lemma_byte_len_concat(cs.take(i), cs.subrange(i, e));
    lemma_byte_pos_mono(cs, e, cs.len() as int);
}

proof fn lemma_value_grows(cs: Seq<char>, i: int, k: int, e: int)
    requires
        0 <= i <= k <= e <= cs.len(),
        forall|j: int| i <= j < e ==> is_digit(cs[j]),
    ensures
        digits_value(cs.subrange(i, k)) <= digits_value(cs.subrange(i, e)),
    decreases e - k,
{
    if k < e {
        lemma_value_grows(cs, i, k, e - 1);
        assert(cs.subrange(i, e).drop_last() =~= cs.subrange(i, e - 1));
    }
}

/// The keyword that a word spells.
fn keyword_of(s: &str) -> (r: Option<Tok>)
    ensures
        r == keyword(s@),
        r matches Some(k) ==> TokV::Sym(k) == k@,
{
    if text_eq(s, "fn") {
        Some(Tok::Fn)
    } else if text_eq(s, "struct") {
        Some(Tok::Struct)
    } else if text_eq(s, "enum") {
        Some(Tok::Enum)
    } else if text_eq(s, "match") {
        Some(Tok::Match)
    } else if text_eq(s, "import") {
        Some(Tok::Import)
    } else if text_eq(s, "pub") {
        Some(Tok::Pub)
    } else if text_eq(s, "let") {
        Some(Tok::Let)
    } else if text_eq(s, "if") {
        Some(Tok::If)
    } else if text_eq(s, "else") {
        Some(Tok::Else)
    } else if text_eq(s, "while") {
        Some(Tok::While)
    } else if text_eq(s, "for") {
        Some(Tok::For)
    } else if text_eq(s, "in") {
        Some(Tok::In)
    } else if text_eq(s, "break") {
        Some(Tok::Break)
    } else if text_eq(s, "continue") {
        Some(Tok::Continue)
    } else if text_eq(s, "return") {
        Some(Tok::Return)
    } else if text_eq(s, "print") {
        Some(Tok::Print)
    } else if text_eq(s, "true") {
        Some(Tok::True)
    } else if text_eq(s, "false") {
        Some(Tok::False)
    } else if text_eq(s, "null") {
        Some(Tok::Null)
    } else {
        None
    }
}

fn operator3_of(a: char, b: char, c: char) -> (r: Option<Tok>)
    ensures
        r == operator3(a, b, c),
        r matches Some(k) ==> TokV::Sym(k) == k@,
{
    match (a, b, c) {
        ('<', '<', '=') => Some(Tok::ShlEq),
        ('>', '>', '=') => Some(Tok::ShrEq),
        _ => None,
    }
}

fn operator2_of(a: char, b: char) -> (r: Option<Tok>)
    ensures
        r == operator2(a, b),
        r matches Some(k) ==> TokV::Sym(k) == k@,
{
    match (a, b) {
        ('=', '=') => Some(Tok::EqEq),
        ('!', '=') => Some(Tok::NotEq),
        ('<', '=') => Some(Tok::Le),
        ('>', '=') => Some(Tok::Ge),
        ('&', '&') => Some(Tok::AmpAmp),
        ('|', '|') => Some(Tok::PipePipe),
        ('-', '>') => Some(Tok::Arrow),
        ('=', '>') => Some(Tok::FatArrow),
        ('+', '=') => Some(Tok::PlusEq),
        ('-', '=') => Some(Tok::MinusEq),
        ('*', '=') => Some(Tok::StarEq),
        ('/', '=') => Some(Tok::SlashEq),
        ('%', '=') => Some(Tok::PercentEq),
        ('<', '<') => Some(Tok::Shl),
        ('>', '>') => Some(Tok::Shr),
        ('&', '=') => Some(Tok::AmpEq),
        ('|', '=') => Some(Tok::PipeEq),
        ('^', '=') => Some(Tok::CaretEq),
        _ => None,
    }
}

fn operator1_of(a: char) -> (r: Option<Tok>)
    ensures
        r == operator1(a),
        r matches Some(k) ==> TokV::Sym(k) == k@,
{
    match a {
        '(' => Some(Tok::LParen),
        ')' => Some(Tok::RParen),
        '{' => Some(Tok::LBrace),
        '}' => Some(Tok::RBrace),
        '[' => Some(Tok::LBracket),
        ']' => Some(Tok::RBracket),
        ',' => Some(Tok::Comma),
        ';' => Some(Tok::Semicolon),
        ':' => Some(Tok::Colon),
        '.' => Some(Tok::Dot),
        '=' => Some(Tok::Assign),
        '+' => Some(Tok::Plus),
        '-' => Some(Tok::Minus),
        '*' => Some(Tok::Star),
        '/' => Some(Tok::Slash),
        '%' => Some(Tok::Percent),
        '<' => Some(Tok::Lt),
        '>' => Some(Tok::Gt),
        '!' => Some(Tok::Bang),
        '&' => Some(Tok::Amp),
        '|' => Some(Tok::Pipe),
        '^' => Some(Tok::Caret),
        '~' => Some(Tok::Tilde),
        _ => None,
    }
}

/// Tokens that lie in the source one after the other, none of them empty and none of them
/// the end.
pub open spec fn laid_out(ts: Seq<TokenV>, src: Seq<char>, file: FileId, end: int) -> bool {
    &&& forall|k: int| #![auto] 0 <= k < ts.len() ==> {
        &&& ts[k].span.file == file
        &&& ts[k].span.start < ts[k].span.end <= end
        &&& segments_lie_in(ts[k].kind, src)
        &&& ts[k].kind != TokV::Sym(Tok::Eof)
    }
    &&& forall|k: int, m: int| 0 <= k < m < ts.len() ==> (#[trigger] ts[k]).span.end <= (
    #[trigger] ts[m]).span.start
}

/// What every result of the lexer is: tokens that lie in the source one after the other,
/// then the end, which takes no room.
pub open spec fn is_token_row(ts: Seq<TokenV>, src: Seq<char>, file: FileId) -> bool {
    let n = byte_len(src) as int;
    &&& ts.len() > 0
    &&& laid_out(ts.drop_last(), src, file, n)
    &&& ts.last() == (TokenV {
        kind: TokV::Sym(Tok::Eof),
        span: Span { file, start: n as usize, end: n as usize },
    })
}

/// Turns source text into tokens, the last of which is the end. Fails on the first
/// character that starts no token (`E0001`), on a whole number that is too large
/// (`E0003`), and on a string literal that is not closed or not well formed (`E0004`).
pub fn lex(src: &str, file: FileId) -> (r: Result<Vec<Token>, Diagnostic>)
    ensures
        match r {
            Ok(ts) => lexed(src@, file) == Ok::<Seq<TokenV>, DiagV>(tokens_view(ts@))
                && is_token_row(tokens_view(ts@), src@, file),
            Err(d) => lexed(src@, file) == Err::<Seq<TokenV>, DiagV>(d@) && points_in(
                d@,
                src@,
                file,
            ),
        },
{
    let total: usize = utf8_len(src);
    let cs = chars_of(src);
    let offs = offsets_of(&cs);
    let s = Source { cs, offs, file };
    let n: usize = s.cs.len();
    let mut toks: Vec<Token> = Vec::new();
    let mut i: usize = 0;
    let ghost want = lexed(src@, file);
    proof {
        assert(tokens_view(toks@) =~= Seq::empty());
        assert(prepend(Seq::empty(), want) == want) by {
            if want is Ok {
                assert(Seq::<TokenV>::empty() + want->Ok_0 =~= want->Ok_0);
            }
        }
        assert(s.cs@.take(n as int) =~= s.cs@);
    }
    while i < n
        invariant
            s.ok(),
            s.file == file,
            s.cs@ == src@,
            n == s.cs@.len(),
            total == byte_len(src@),
            0 <= i <= n,
            want == lexed(src@, file),
            want == prepend(tokens_view(toks@), lex_from(src@, i as int, file)),
            laid_out(tokens_view(toks@), src@, file, byte_pos(src@, i as int) as int),
        decreases n - i,
    {
        let c = s.cs[i];
        proof {
            lemma_scan_ahead(src@, i as int, file);
        }
        if c.is_whitespace() {
            i += 1;
            proof {
                lemma_byte_pos_mono(src@, i - 1, i as int);
            }
            continue;
        }
        if c == '#' {
            let j: usize = s.line_stop(i + 1);
            proof {
                lemma_byte_pos_mono(src@, i as int, j as int);
            }
            i = j;
            continue;
        }
        let found = if c == '"' {
            s.string(i)
        } else if '0' <= c && c <= '9' {
            s.number(i)
        } else if c.is_alphabetic() || c == '_' {
            Ok(s.word(i))
        } else {
            s.operator(i)
        };
        match found {
            Ok((kind, j)) => {
                let span = s.span(i, j);
                let ghost before = tokens_view(toks@);
                let ghost added = TokenV { kind: kind@, span };
                proof {
                    lemma_byte_pos_mono(src@, i as int, j as int);
                    lemma_byte_pos_mono(src@, j as int, n as int);
                }
                toks.push(Token { kind, span });
                proof {
                    assert(tokens_view(toks@) =~= before.push(added));
                    lemma_prepend(before, seq![added], lex_from(src@, j as int, file));
                    assert(before + seq![added] =~= before.push(added));
                    lemma_found_is_no_end(src@, i as int, file);
                }
                i = j;
            },
            Err(d) => {
                return Err(d);
            },
        }
    }
    let ghost before = tokens_view(toks@);
    toks.push(Token { kind: Tok::Eof, span: Span::new(file, total, total) });
    proof {
        assert(tokens_view(toks@) =~= before + lex_from(src@, n as int, file)->Ok_0);
        assert(tokens_view(toks@).drop_last() =~= before);
    }
    Ok(toks)
}

proof fn lemma_prepend(a: Seq<TokenV>, b: Seq<TokenV>, r: Result<Seq<TokenV>, DiagV>)
    ensures
        prepend(a, prepend(b, r)) == prepend(a + b, r),
{
    if r is Ok {
        assert(a + (b + r->Ok_0) =~= (a + b) + r->Ok_0);
    }
}

proof fn lemma_found_is_no_end(cs: Seq<char>, i: int, file: FileId)
    requires
        0 <= i < cs.len(),
    ensures
        scan(cs, i, file) matches Scan::Found(k, _) ==> k != TokV::Sym(Tok::Eof),
{
    if cs[i] == '"' {
        lemma_string_kind(cs, i + 1, i, file, Seq::empty(), Seq::empty());
    }
}

proof fn lemma_string_kind(
    cs: Seq<char>,
    i: int,
    start: int,
    file: FileId,
    segs: Seq<SegmentV>,
    cur: Seq<char>,
)
    requires
        0 <= i,
    ensures
        scan_string(cs, i, start, file, segs, cur) matches Scan::Found(k, _) ==> k is Str
            || k is InterpStr,
    decreases cs.len() - i,
{
    lemma_piece_ahead(cs, i, start, file);
    match piece(cs, i, start, file) {
        Piece::Plain(c, j) => lemma_string_kind(cs, j, start, file, segs, cur.push(c)),
        Piece::Code(j) => lemma_string_kind(
            cs,
            j,
            start,
            file,
            segs.push(SegmentV::Lit(cur)).push(
                SegmentV::Expr {
                    src: cs.subrange(i + 1, j - 1),
                    offset: byte_pos(cs, i + 1) as usize,
                },
            ),
            Seq::empty(),
        ),
        _ => {},
    }
}

} // verus!
