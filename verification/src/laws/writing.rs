//! Why what is written is what is read: tokens.
//!
//! Every token can be written down: a keyword and an operator as it is spelled, a number in
//! digits, a string between quotes with what cannot stand there escaped. The lexer reads a row
//! of tokens that are written so, with blanks and comments between them, as these tokens.
use crate::token::Tok;
use vstd::prelude::*;
#[allow(unused_imports)]
use crate::diagnostics::line_end;
#[allow(unused_imports)]
use crate::lexer::{
    code_end, digits_end, digits_value, is_digit, keyword, lex_from, lexed, piece, scan,
    scan_string, Piece, Scan,
};
#[allow(unused_imports)]
use crate::reading::{is_name, lemma_name_end, stands_at};
#[allow(unused_imports)]
use crate::span::FileId;
#[allow(unused_imports)]
use crate::text::{byte_pos, dec_text};
#[allow(unused_imports)]
use crate::token::{is_sym, SegmentV, TokV, TokenV};

verus! {

/// How a keyword is spelled.
pub open spec fn keyword_spelling(t: Tok) -> Seq<char> {
    match t {
        Tok::Fn => seq!['f', 'n'],
        Tok::Struct => seq!['s', 't', 'r', 'u', 'c', 't'],
        Tok::Enum => seq!['e', 'n', 'u', 'm'],
        Tok::Match => seq!['m', 'a', 't', 'c', 'h'],
        Tok::Import => seq!['i', 'm', 'p', 'o', 'r', 't'],
        Tok::Pub => seq!['p', 'u', 'b'],
        Tok::Let => seq!['l', 'e', 't'],
        Tok::If => seq!['i', 'f'],
        Tok::Else => seq!['e', 'l', 's', 'e'],
        Tok::While => seq!['w', 'h', 'i', 'l', 'e'],
        Tok::For => seq!['f', 'o', 'r'],
        Tok::In => seq!['i', 'n'],
        Tok::Break => seq!['b', 'r', 'e', 'a', 'k'],
        Tok::Continue => seq!['c', 'o', 'n', 't', 'i', 'n', 'u', 'e'],
        Tok::Return => seq!['r', 'e', 't', 'u', 'r', 'n'],
        Tok::Print => seq!['p', 'r', 'i', 'n', 't'],
        Tok::True => seq!['t', 'r', 'u', 'e'],
        Tok::False => seq!['f', 'a', 'l', 's', 'e'],
        Tok::Null => seq!['n', 'u', 'l', 'l'],
        _ => Seq::empty(),
    }
}

pub open spec fn is_keyword(t: Tok) -> bool {
    keyword_spelling(t).len() > 0
}

/// How an operator or a mark is spelled.
pub open spec fn mark_spelling(t: Tok) -> Seq<char> {
    match t {
        Tok::LParen => seq!['('],
        Tok::RParen => seq![')'],
        Tok::LBrace => seq!['{'],
        Tok::RBrace => seq!['}'],
        Tok::LBracket => seq!['['],
        Tok::RBracket => seq![']'],
        Tok::Comma => seq![','],
        Tok::Semicolon => seq![';'],
        Tok::Colon => seq![':'],
        Tok::Dot => seq!['.'],
        Tok::Assign => seq!['='],
        Tok::Plus => seq!['+'],
        Tok::Minus => seq!['-'],
        Tok::Star => seq!['*'],
        Tok::Slash => seq!['/'],
        Tok::Percent => seq!['%'],
        Tok::Lt => seq!['<'],
        Tok::Gt => seq!['>'],
        Tok::Bang => seq!['!'],
        Tok::Amp => seq!['&'],
        Tok::Pipe => seq!['|'],
        Tok::Caret => seq!['^'],
        Tok::Tilde => seq!['~'],
        Tok::Shl => seq!['<', '<'],
        Tok::Shr => seq!['>', '>'],
        Tok::AmpAmp => seq!['&', '&'],
        Tok::PipePipe => seq!['|', '|'],
        Tok::Arrow => seq!['-', '>'],
        Tok::FatArrow => seq!['=', '>'],
        Tok::EqEq => with_equals(Tok::Assign),
        Tok::NotEq => with_equals(Tok::Bang),
        Tok::Le => with_equals(Tok::Lt),
        Tok::Ge => with_equals(Tok::Gt),
        Tok::PlusEq => with_equals(Tok::Plus),
        Tok::MinusEq => with_equals(Tok::Minus),
        Tok::StarEq => with_equals(Tok::Star),
        Tok::SlashEq => with_equals(Tok::Slash),
        Tok::PercentEq => with_equals(Tok::Percent),
        Tok::AmpEq => with_equals(Tok::Amp),
        Tok::PipeEq => with_equals(Tok::Pipe),
        Tok::CaretEq => with_equals(Tok::Caret),
        Tok::ShlEq => seq!['<', '<', '='],
        Tok::ShrEq => seq!['>', '>', '='],
        _ => Seq::empty(),
    }
}

/// A mark of one character with an equals sign behind it.
pub open spec fn with_equals(t: Tok) -> Seq<char> {
    let c = match t {
        Tok::Assign => '=',
        Tok::Bang => '!',
        Tok::Lt => '<',
        Tok::Gt => '>',
        Tok::Plus => '+',
        Tok::Minus => '-',
        Tok::Star => '*',
        Tok::Slash => '/',
        Tok::Percent => '%',
        Tok::Amp => '&',
        Tok::Pipe => '|',
        _ => '^',
    };
    seq![c, '=']
}

/// How a character of a text is written between quotes: a line feed, a tab, a carriage
/// return, a null, a backslash and a quote with a backslash before them, a brace twice.
pub open spec fn letter(c: char) -> Seq<char> {
    if c == '\n' {
        seq!['\\', 'n']
    } else if c == '\t' {
        seq!['\\', 't']
    } else if c == '\r' {
        seq!['\\', 'r']
    } else if c == '\0' {
        seq!['\\', '0']
    } else if c == '\\' || c == '"' {
        seq!['\\', c]
    } else if c == '{' || c == '}' {
        seq![c, c]
    } else {
        seq![c]
    }
}

/// How a text is written between quotes.
pub open spec fn letters(s: Seq<char>) -> Seq<char>
    decreases s.len(),
{
    if s.len() == 0 {
        Seq::empty()
    } else {
        letter(s[0]) + letters(s.drop_first())
    }
}

/// How a piece of an interpolated string is written: an expression between braces.
pub open spec fn segment_letters(s: SegmentV) -> Seq<char> {
    match s {
        SegmentV::Lit(t) => letters(t),
        SegmentV::Expr { src, .. } => seq!['{'] + src + seq!['}'],
    }
}

/// The pieces from `k` on.
pub open spec fn segments_letters(segs: Seq<SegmentV>, k: int) -> Seq<char>
    decreases segs.len() - k,
{
    if !(0 <= k < segs.len()) {
        Seq::empty()
    } else {
        segment_letters(segs[k]) + segments_letters(segs, k + 1)
    }
}

/// How a token is written.
pub open spec fn written(k: TokV) -> Seq<char> {
    match k {
        TokV::Int(n) => dec_text(n as nat),
        TokV::Float(s) => s,
        TokV::Str(s) => seq!['"'] + letters(s) + seq!['"'],
        TokV::InterpStr(segs) => seq!['"'] + segments_letters(segs, 0) + seq!['"'],
        TokV::Ident(n) => n,
        TokV::Sym(t) => if is_keyword(t) {
            keyword_spelling(t)
        } else {
            mark_spelling(t)
        },
    }
}

/// Digits, a point, digits.
pub open spec fn is_fraction_text(s: Seq<char>, point: int) -> bool {
    &&& 0 < point < s.len() - 1
    &&& s[point] == '.'
    &&& forall|i: int| 0 <= i < s.len() && i != point ==> is_digit(#[trigger] s[i])
}

/// The source of an interpolated expression: on one line, without braces and quotes.
pub open spec fn is_source(s: Seq<char>) -> bool {
    forall|i: int|
        0 <= i < s.len() ==> s[i] != '\n' && s[i] != '{' && s[i] != '}' && #[trigger] s[i] != '"'
}

/// Texts and expressions in turn, with texts at both ends.
pub open spec fn are_segments(segs: Seq<SegmentV>) -> bool {
    &&& segs.len() >= 3
    &&& segs.len() % 2 == 1
    &&& forall|k: int| 0 <= k < segs.len() && k % 2 == 0 ==> #[trigger] segs[k] is Lit
    &&& forall|k: int|
        0 <= k < segs.len() && k % 2 == 1 ==> (#[trigger] segs[k] matches SegmentV::Expr { src, .. }
            && is_source(src))
}

/// A token that can be written.
pub open spec fn is_writable(k: TokV) -> bool {
    match k {
        TokV::Int(n) => n >= 0,
        TokV::Float(s) => exists|point: int| is_fraction_text(s, point),
        TokV::Str(_) => true,
        TokV::InterpStr(segs) => are_segments(segs),
        TokV::Ident(n) => is_name(n),
        TokV::Sym(t) => is_sym(t) && t != Tok::Eof,
    }
}

/// The same token, but for where interpolated expressions stand in the file.
pub open spec fn reads_as(k: TokV, l: TokV) -> bool {
    match (k, l) {
        (TokV::InterpStr(a), TokV::InterpStr(b)) => a.len() == b.len() && forall|i: int|
            0 <= i < a.len() ==> match (#[trigger] a[i], b[i]) {
                (SegmentV::Lit(s), SegmentV::Lit(t)) => s == t,
                (SegmentV::Expr { src: s, .. }, SegmentV::Expr { src: t, .. }) => s == t,
                _ => false,
            },
        _ => k == l,
    }
}

/// A blank.
pub open spec fn is_blank(c: char) -> bool {
    c == ' ' || c == '\t' || c == '\n' || c == '\r'
}

/// What can stand between two tokens: blanks, and comments from a number sign to the end of
/// the line, with a blank at the start.
pub open spec fn is_gap(g: Seq<char>) -> bool {
    &&& g.len() > 0
    &&& is_blank(g[0])
    &&& only_blanks(g) || exists|c: int| ends_in_comment(g, c)
}

pub open spec fn only_blanks(g: Seq<char>) -> bool {
    forall|i: int| 0 <= i < g.len() ==> is_blank(#[trigger] g[i])
}

/// Blanks up to `c`, and from there a comment.
pub open spec fn ends_in_comment(g: Seq<char>, c: int) -> bool {
    &&& 0 < c < g.len() - 1
    &&& forall|i: int| 0 <= i < c ==> is_blank(#[trigger] g[i])
    &&& g[c] == '#'
    &&& forall|i: int| c < i < g.len() - 1 ==> #[trigger] g[i] != '\n'
    &&& g.last() == '\n'
}

/// Tokens, each with a gap behind it.
pub open spec fn row_text(ks: Seq<TokV>, gaps: Seq<Seq<char>>) -> Seq<char>
    decreases ks.len(),
{
    if ks.len() == 0 {
        Seq::empty()
    } else {
        written(ks[0]) + gaps[0] + row_text(ks.drop_first(), gaps.drop_first())
    }
}

// Proofs.

proof fn lemma_stands(cs: Seq<char>, i: int, s: Seq<char>)
    requires
        stands_at(cs, i, s),
    ensures
        forall|k: int| 0 <= k < s.len() ==> cs[i + k] == #[trigger] s[k],
{
    assert forall|k: int| 0 <= k < s.len() implies cs[i + k] == #[trigger] s[k] by {
        assert(cs.subrange(i, i + s.len())[k] == cs[i + k]);
    }
}

proof fn lemma_stands_parts(cs: Seq<char>, i: int, a: Seq<char>, b: Seq<char>)
    requires
        stands_at(cs, i, a + b),
    ensures
        stands_at(cs, i, a),
        stands_at(cs, i + a.len(), b),
{
    lemma_stands(cs, i, a + b);
    assert(cs.subrange(i, i + a.len()) =~= a) by {
        assert forall|k: int| 0 <= k < a.len() implies cs[i + k] == a[k] by {
            assert((a + b)[k] == a[k]);
        }
    }
    assert(cs.subrange(i + a.len(), i + a.len() + b.len()) =~= b) by {
        assert forall|k: int| 0 <= k < b.len() implies cs[i + a.len() + k] == b[k] by {
            assert(cs[i + (a.len() + k)] == (a + b)[a.len() + k]);
        }
    }
}

/// A text between quotes.
proof fn lemma_letters(
    cs: Seq<char>,
    i: int,
    start: int,
    file: FileId,
    segs: Seq<SegmentV>,
    cur: Seq<char>,
    s: Seq<char>,
)
    requires
        stands_at(cs, i, letters(s)),
    ensures
        scan_string(cs, i, start, file, segs, cur) == scan_string(
            cs,
            i + letters(s).len(),
            start,
            file,
            segs,
            cur + s,
        ),
    decreases s.len(),
{
    if s.len() == 0 {
        assert(cur + s =~= cur);
    } else {
        let l = letter(s[0]);
        let rest = s.drop_first();
        lemma_stands_parts(cs, i, l, letters(rest));
        lemma_stands(cs, i, l);
        assert(cs[i + 0] == l[0]);
        if l.len() == 2 {
            assert(cs[i + 1] == l[1]);
        }
        assert(piece(cs, i, start, file) == Piece::Plain(s[0], i + l.len()));
        lemma_letters(cs, i + l.len(), start, file, segs, cur.push(s[0]), rest);
        assert(cur.push(s[0]) + rest =~= cur + s);
    }
}

proof fn lemma_code_end(cs: Seq<char>, i: int, e: int)
    requires
        0 <= i <= e < cs.len(),
        cs[e] == '}',
        forall|k: int|
            i <= k < e ==> cs[k] != '\n' && cs[k] != '{' && cs[k] != '}' && #[trigger] cs[k] != '"',
    ensures
        code_end(cs, i) == e,
    decreases e - i,
{
    if i < e {
        lemma_code_end(cs, i + 1, e);
    }
}

/// The pieces that a row of segments is read as, up to `k`.
spec fn read_segments(a: Seq<SegmentV>, b: Seq<SegmentV>, k: int) -> bool {
    a.len() == k && forall|i: int|
        0 <= i < a.len() ==> match (#[trigger] a[i], b[i]) {
            (SegmentV::Lit(s), SegmentV::Lit(t)) => s == t,
            (SegmentV::Expr { src: s, .. }, SegmentV::Expr { src: t, .. }) => s == t,
            _ => false,
        }
}

/// A text and an expression of an interpolated string, or its last text.
proof fn lemma_segments(
    cs: Seq<char>,
    i: int,
    start: int,
    file: FileId,
    segs: Seq<SegmentV>,
    k: int,
    done: Seq<SegmentV>,
)
    requires
        are_segments(segs),
        0 <= k < segs.len(),
        k % 2 == 0,
        read_segments(done, segs, k),
        stands_at(cs, i, segments_letters(segs, k) + seq!['"']),
    ensures
        scan_string(cs, i, start, file, done, Seq::empty()) matches Scan::Found(t, j) && reads_as(
            t,
            TokV::InterpStr(segs),
        ) && j == i + segments_letters(segs, k).len() + 1,
    decreases segs.len() - k,
{
    let quote = seq!['"'];
    let s = segs[k]->Lit_0;
    let none = Seq::<char>::empty();
    let after = segments_letters(segs, k + 1);
    assert(segment_letters(segs[k]) + after + quote =~= letters(s) + (after + quote));
    lemma_stands_parts(cs, i, letters(s), after + quote);
    lemma_letters(cs, i, start, file, done, none, s);
    assert(none + s =~= s);
    let j = i + letters(s).len();
    if k + 1 == segs.len() {
        assert(after + quote =~= quote);
        lemma_stands(cs, j, quote);
        assert(cs[j + 0] == quote[0]);
        assert(piece(cs, j, start, file) == Piece::Close);
    } else {
        let src = segs[k + 1]->src;
        let rest = segments_letters(segs, k + 2);
        let code = seq!['{'] + src + seq!['}'];
        assert(after + quote =~= code + (rest + quote));
        lemma_stands_parts(cs, j, code, rest + quote);
        lemma_stands(cs, j, code);
        let e = j + 1 + src.len();
        assert(code[0] == '{' && cs[j + 0] == code[0]);
        assert(code[1 + src.len() as int] == '}' && cs[j + (1 + src.len())]
            == code[1 + src.len() as int]);
        assert forall|m: int| j + 1 <= m < e implies cs[m] != '\n' && cs[m] != '{' && cs[m] != '}'
            && #[trigger] cs[m] != '"' by {
            assert(cs[j + (m - j)] == code[m - j]);
            assert(code[m - j] == src[m - j - 1]);
        }
        lemma_code_end(cs, j + 1, e);
        assert(piece(cs, j, start, file) == Piece::Code(e + 1)) by {
            if src.len() > 0 {
                assert(cs[j + 1] != '{');
            }
        }
        assert(cs.subrange(j + 1, e) =~= src) by {
            assert forall|m: int| 0 <= m < src.len() implies cs[j + 1 + m] == src[m] by {
                assert(cs[j + (1 + m)] == code[1 + m]);
            }
        }
        let more = done.push(SegmentV::Lit(s)).push(
            SegmentV::Expr { src, offset: byte_pos(cs, j + 1) as usize },
        );
        lemma_segments(cs, e + 1, start, file, segs, k + 2, more);
    }
}

proof fn lemma_digits(cs: Seq<char>, i: int, e: int)
    requires
        0 <= i <= e <= cs.len(),
        forall|k: int| i <= k < e ==> is_digit(#[trigger] cs[k]),
        e < cs.len() ==> !is_digit(cs[e]),
    ensures
        digits_end(cs, i) == e,
    decreases e - i,
{
    if i < e {
        lemma_digits(cs, i + 1, e);
    }
}

pub proof fn lemma_number(n: nat)
    ensures
        dec_text(n).len() > 0,
        digits_value(dec_text(n)) == n,
        forall|k: int| 0 <= k < dec_text(n).len() ==> is_digit(#[trigger] dec_text(n)[k]),
    decreases n,
{
    let s = dec_text(n);
    if n < 10 {
        assert(s.drop_last() =~= Seq::empty());
        assert(digits_value(Seq::<char>::empty()) == 0);
    } else {
        lemma_number(n / 10);
        let front = dec_text(n / 10);
        assert(s.drop_last() =~= front);
        assert forall|k: int| 0 <= k < s.len() implies is_digit(#[trigger] s[k]) by {
            if k < front.len() {
                assert(s[k] == front[k]);
            }
        }
    }
}

/// What stands where a token is written.
spec fn found(cs: Seq<char>, i: int, file: FileId, k: TokV) -> bool {
    scan(cs, i, file) matches Scan::Found(t, j) && reads_as(t, k) && j == i + written(k).len()
}

proof fn lemma_read_int(cs: Seq<char>, i: int, file: FileId, n: i64)
    requires
        n >= 0,
        stands_at(cs, i, dec_text(n as nat)),
        i + dec_text(n as nat).len() < cs.len(),
        is_blank(cs[i + dec_text(n as nat).len()]),
    ensures
        found(cs, i, file, TokV::Int(n)),
{
    let s = dec_text(n as nat);
    lemma_number(n as nat);
    lemma_stands(cs, i, s);
    let e = i + s.len();
    assert(is_digit(s[0]) && cs[i + 0] == s[0]);
    assert forall|k: int| i + 1 <= k < e implies is_digit(#[trigger] cs[k]) by {
        assert(cs[i + (k - i)] == s[k - i]);
    }
    lemma_digits(cs, i + 1, e);
    assert(cs.subrange(i, e) == s);
}

proof fn lemma_read_float(cs: Seq<char>, i: int, file: FileId, s: Seq<char>, point: int)
    requires
        is_fraction_text(s, point),
        stands_at(cs, i, s),
        i + s.len() < cs.len(),
        is_blank(cs[i + s.len()]),
    ensures
        found(cs, i, file, TokV::Float(s)),
{
    lemma_stands(cs, i, s);
    let e = i + point;
    let f = i + s.len();
    assert(is_digit(s[0]) && cs[i + 0] == s[0]);
    assert(cs[i + point] == s[point]);
    assert(cs[i + (point + 1)] == s[point + 1] && is_digit(s[point + 1]));
    assert forall|k: int| i + 1 <= k < e implies is_digit(#[trigger] cs[k]) by {
        assert(cs[i + (k - i)] == s[k - i]);
    }
    lemma_digits(cs, i + 1, e);
    assert forall|k: int| e + 2 <= k < f implies is_digit(#[trigger] cs[k]) by {
        assert(cs[i + (k - i)] == s[k - i]);
    }
    lemma_digits(cs, e + 2, f);
    assert(cs.subrange(i, f) == s);
}

/// Keywords are what their spelling is taken for.
proof fn lemma_keyword(t: Tok)
    requires
        is_keyword(t),
    ensures
        keyword(keyword_spelling(t)) == Some(t),
        forall|k: int|
            0 <= k < keyword_spelling(t).len() ==> 'a' <= #[trigger] keyword_spelling(t)[k] <= 'z',
{
    reveal_strlit("fn");
    reveal_strlit("struct");
    reveal_strlit("enum");
    reveal_strlit("match");
    reveal_strlit("import");
    reveal_strlit("pub");
    reveal_strlit("let");
    reveal_strlit("if");
    reveal_strlit("else");
    reveal_strlit("while");
    reveal_strlit("for");
    reveal_strlit("in");
    reveal_strlit("break");
    reveal_strlit("continue");
    reveal_strlit("return");
    reveal_strlit("print");
    reveal_strlit("true");
    reveal_strlit("false");
    reveal_strlit("null");
    let s = keyword_spelling(t);
    assert(t is Fn ==> s =~= "fn"@);
    assert(t is Struct ==> s =~= "struct"@);
    assert(t is Enum ==> s =~= "enum"@);
    assert(t is Match ==> s =~= "match"@);
    assert(t is Import ==> s =~= "import"@);
    assert(t is Pub ==> s =~= "pub"@);
    assert(t is Let ==> s =~= "let"@);
    assert(t is If ==> s =~= "if"@);
    assert(t is Else ==> s =~= "else"@);
    assert(t is While ==> s =~= "while"@);
    assert(t is For ==> s =~= "for"@);
    assert(t is In ==> s =~= "in"@);
    assert(t is Break ==> s =~= "break"@);
    assert(t is Continue ==> s =~= "continue"@);
    assert(t is Return ==> s =~= "return"@);
    assert(t is Print ==> s =~= "print"@);
    assert(t is True ==> s =~= "true"@);
    assert(t is False ==> s =~= "false"@);
    assert(t is Null ==> s =~= "null"@);
}

proof fn lemma_read_keyword(cs: Seq<char>, i: int, file: FileId, t: Tok)
    requires
        is_keyword(t),
        stands_at(cs, i, keyword_spelling(t)),
        i + keyword_spelling(t).len() < cs.len(),
        is_blank(cs[i + keyword_spelling(t).len()]),
    ensures
        found(cs, i, file, TokV::Sym(t)),
{
    let s = keyword_spelling(t);
    lemma_keyword(t);
    lemma_stands(cs, i, s);
    assert(cs[i + 0] == s[0]);
    lemma_name_end(cs, i, 1, s);
}

proof fn lemma_read_name(cs: Seq<char>, i: int, file: FileId, n: Seq<char>)
    requires
        is_name(n),
        stands_at(cs, i, n),
        i + n.len() < cs.len(),
        is_blank(cs[i + n.len()]),
    ensures
        found(cs, i, file, TokV::Ident(n)),
{
    lemma_stands(cs, i, n);
    assert(cs[i + 0] == n[0]);
    lemma_name_end(cs, i, 1, n);
}

proof fn lemma_read_mark(cs: Seq<char>, i: int, file: FileId, t: Tok)
    requires
        is_sym(t),
        t != Tok::Eof,
        !is_keyword(t),
        stands_at(cs, i, mark_spelling(t)),
        i + mark_spelling(t).len() < cs.len(),
        is_blank(cs[i + mark_spelling(t).len()]),
    ensures
        found(cs, i, file, TokV::Sym(t)),
{
    let s = mark_spelling(t);
    lemma_stands(cs, i, s);
    assert(s.len() == 1 || s.len() == 2 || s.len() == 3);
    assert(cs[i + 0] == s[0]);
    if s.len() >= 2 {
        assert(cs[i + 1] == s[1]);
    }
    if s.len() >= 3 {
        assert(cs[i + 2] == s[2]);
    }
}

proof fn lemma_read_string(cs: Seq<char>, i: int, file: FileId, s: Seq<char>)
    requires
        stands_at(cs, i, written(TokV::Str(s))),
    ensures
        found(cs, i, file, TokV::Str(s)),
{
    let quote = seq!['"'];
    let none = Seq::<char>::empty();
    assert(quote + letters(s) + quote =~= quote + (letters(s) + quote));
    lemma_stands_parts(cs, i, quote, letters(s) + quote);
    lemma_stands_parts(cs, i + 1, letters(s), quote);
    lemma_stands(cs, i, quote);
    assert(cs[i + 0] == quote[0]);
    lemma_letters(cs, i + 1, i, file, Seq::empty(), none, s);
    assert(none + s =~= s);
    let e = i + 1 + letters(s).len();
    lemma_stands(cs, e, quote);
    assert(cs[e + 0] == quote[0]);
    assert(piece(cs, e, i, file) == Piece::Close);
}

proof fn lemma_read_segments(cs: Seq<char>, i: int, file: FileId, segs: Seq<SegmentV>)
    requires
        are_segments(segs),
        stands_at(cs, i, written(TokV::InterpStr(segs))),
    ensures
        found(cs, i, file, TokV::InterpStr(segs)),
{
    let quote = seq!['"'];
    let inner = segments_letters(segs, 0);
    assert(quote + inner + quote =~= quote + (inner + quote));
    lemma_stands_parts(cs, i, quote, inner + quote);
    lemma_stands(cs, i, quote);
    assert(cs[i + 0] == quote[0]);
    lemma_segments(cs, i + 1, i, file, segs, 0, Seq::empty());
}

proof fn lemma_read(cs: Seq<char>, i: int, file: FileId, k: TokV)
    requires
        is_writable(k),
        stands_at(cs, i, written(k)),
        i + written(k).len() < cs.len(),
        is_blank(cs[i + written(k).len()]),
    ensures
        found(cs, i, file, k),
{
    match k {
        TokV::Int(n) => lemma_read_int(cs, i, file, n),
        TokV::Float(s) => {
            let point = choose|point: int| is_fraction_text(s, point);
            lemma_read_float(cs, i, file, s, point);
        },
        TokV::Str(s) => lemma_read_string(cs, i, file, s),
        TokV::InterpStr(segs) => lemma_read_segments(cs, i, file, segs),
        TokV::Ident(n) => lemma_read_name(cs, i, file, n),
        TokV::Sym(t) => if is_keyword(t) {
            lemma_read_keyword(cs, i, file, t);
        } else {
            lemma_read_mark(cs, i, file, t);
        },
    }
}

proof fn lemma_blanks(cs: Seq<char>, i: int, file: FileId, n: int)
    requires
        0 <= i,
        0 <= n,
        i + n <= cs.len(),
        forall|k: int| i <= k < i + n ==> is_blank(#[trigger] cs[k]),
    ensures
        lex_from(cs, i, file) == lex_from(cs, i + n, file),
    decreases n,
{
    if n > 0 {
        assert(scan(cs, i, file) == Scan::Skip(i + 1));
        lemma_blanks(cs, i + 1, file, n - 1);
    }
}

proof fn lemma_line_end(cs: Seq<char>, i: int, e: int)
    requires
        0 <= i <= e < cs.len(),
        cs[e] == '\n',
        forall|k: int| i <= k < e ==> #[trigger] cs[k] != '\n',
    ensures
        line_end(cs, i) == e,
    decreases e - i,
{
    if i < e {
        lemma_line_end(cs, i + 1, e);
    }
}

proof fn lemma_gap(cs: Seq<char>, i: int, file: FileId, g: Seq<char>)
    requires
        is_gap(g),
        stands_at(cs, i, g),
    ensures
        lex_from(cs, i, file) == lex_from(cs, i + g.len(), file),
{
    lemma_stands(cs, i, g);
    if only_blanks(g) {
        assert forall|k: int| i <= k < i + g.len() implies is_blank(#[trigger] cs[k]) by {
            assert(cs[i + (k - i)] == g[k - i]);
        }
        lemma_blanks(cs, i, file, g.len() as int);
    } else {
        let c = choose|c: int| ends_in_comment(g, c);
        assert forall|k: int| i <= k < i + c implies is_blank(#[trigger] cs[k]) by {
            assert(cs[i + (k - i)] == g[k - i]);
        }
        lemma_blanks(cs, i, file, c);
        assert(cs[i + c] == g[c]);
        let e = i + g.len() - 1;
        assert(cs[i + (g.len() - 1)] == g[g.len() - 1]);
        assert forall|k: int| i + c + 1 <= k < e implies #[trigger] cs[k] != '\n' by {
            assert(cs[i + (k - i)] == g[k - i]);
        }
        lemma_line_end(cs, i + c + 1, e);
        assert(scan(cs, i + c, file) == Scan::Skip(e));
        lemma_blanks(cs, e, file, 1);
    }
}

/// These tokens, and then the end.
pub open spec fn are_read(ts: Seq<TokenV>, ks: Seq<TokV>) -> bool {
    &&& ts.len() == ks.len() + 1
    &&& forall|i: int| 0 <= i < ks.len() ==> reads_as((#[trigger] ts[i]).kind, ks[i])
    &&& ts.last().kind == TokV::Sym(Tok::Eof)
}

proof fn lemma_row(cs: Seq<char>, i: int, file: FileId, ks: Seq<TokV>, gaps: Seq<Seq<char>>)
    requires
        gaps.len() == ks.len(),
        forall|k: int| 0 <= k < ks.len() ==> is_writable(#[trigger] ks[k]),
        forall|k: int| 0 <= k < gaps.len() ==> is_gap(#[trigger] gaps[k]),
        stands_at(cs, i, row_text(ks, gaps)),
        i + row_text(ks, gaps).len() == cs.len(),
    ensures
        lex_from(cs, i, file) matches Ok(ts) && are_read(ts, ks),
    decreases ks.len(),
{
    if ks.len() > 0 {
        let (k, g) = (ks[0], gaps[0]);
        let (more, others) = (ks.drop_first(), gaps.drop_first());
        let rest = row_text(more, others);
        assert(written(k) + g + rest =~= written(k) + (g + rest));
        lemma_stands_parts(cs, i, written(k), g + rest);
        let j = i + written(k).len();
        lemma_stands_parts(cs, j, g, rest);
        lemma_stands(cs, j, g);
        assert(cs[j + 0] == g[0]);
        assert(is_writable(ks[0]));
        assert(is_gap(gaps[0]));
        lemma_read(cs, i, file, k);
        lemma_gap(cs, j, file, g);
        assert forall|m: int| 0 <= m < more.len() implies is_writable(#[trigger] more[m]) by {
            assert(is_writable(ks[m + 1]));
        }
        assert forall|m: int| 0 <= m < others.len() implies is_gap(#[trigger] others[m]) by {
            assert(is_gap(gaps[m + 1]));
        }
        lemma_row(cs, j + g.len(), file, more, others);
        let ts = lex_from(cs, i, file)->Ok_0;
        let tail = lex_from(cs, j + g.len(), file)->Ok_0;
        assert(ts.drop_first() =~= tail);
        assert forall|m: int| 0 <= m < ks.len() implies reads_as((#[trigger] ts[m]).kind, ks[m]) by {
            if m > 0 {
                assert(ts[m] == tail[m - 1]);
                assert(ks[m] == more[m - 1]);
            }
        }
        assert(ts.last() == tail.last());
    }
}

/// Tokens that are written one after the other, with blanks and comments between them, are
/// read as these tokens: every keyword and operator as it is spelled, every number from its
/// digits, every name, and every string, whatever its text, from the letters that write it.
pub proof fn tokens_are_read_as_they_are_written(
    ks: Seq<TokV>,
    gaps: Seq<Seq<char>>,
    file: FileId,
)
    requires
        gaps.len() == ks.len(),
        forall|k: int| 0 <= k < ks.len() ==> is_writable(#[trigger] ks[k]),
        forall|k: int| 0 <= k < gaps.len() ==> is_gap(#[trigger] gaps[k]),
    ensures
        lexed(row_text(ks, gaps), file) matches Ok(ts) && are_read(ts, ks),
{
    let cs = row_text(ks, gaps);
    assert(cs.subrange(0, cs.len() as int) =~= cs);
    lemma_row(cs, 0, file, ks, gaps);
}

/// A text that is written between quotes is read as the string that it is.
pub proof fn strings_are_read_as_they_are_written(s: Seq<char>, file: FileId)
    ensures
        lexed(seq!['"'] + letters(s) + seq!['"'], file) matches Ok(ts) && ts.len() == 2
            && ts[0].kind == TokV::Str(s) && ts[1].kind == TokV::Sym(Tok::Eof),
{
    let cs = written(TokV::Str(s));
    assert(cs.subrange(0, cs.len() as int) =~= cs);
    lemma_read_string(cs, 0, file, s);
    let end = lex_from(cs, cs.len() as int, file);
    assert(end is Ok && end->Ok_0.len() == 1);
}

} // verus!
