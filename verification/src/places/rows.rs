//! The places of tokens.
use vstd::prelude::*;
#[allow(unused_imports)]
use crate::grammar::{nest, shift_diag, shift_span, shift_tokens, tok_nest};
#[allow(unused_imports)]
use crate::lexer::{
    chars_span, code_end, digits_end, lemma_piece_ahead, lemma_scan_ahead, lex_from, lexed, piece,
    scan, scan_string, Piece, Scan,
};
#[allow(unused_imports)]
use crate::parser::lemma_nest_bound;
#[allow(unused_imports)]
use crate::span::{FileId, Span};
#[allow(unused_imports)]
use crate::text::{byte_len, byte_pos, lemma_byte_len_concat, lemma_byte_pos_mono};
#[allow(unused_imports)]
use crate::token::{SegmentV, Tok, TokV, TokenV};

verus! {

/// An offset between two characters, or at an end of the text.
#[verifier::opaque]
pub open spec fn is_cut(src: Seq<char>, n: int) -> bool {
    exists|i: int| 0 <= i <= src.len() && #[trigger] byte_pos(src, i) == n
}

/// A span that starts and ends between characters of the text.
pub open spec fn is_spot(src: Seq<char>, file: FileId, s: Span) -> bool {
    &&& s.file == file
    &&& s.start <= s.end
    &&& is_cut(src, s.start as int)
    &&& is_cut(src, s.end as int)
}

/// The spans of a text.
pub open spec fn spots(src: Seq<char>, file: FileId) -> spec_fn(Span) -> bool {
    |s: Span| is_spot(src, file, s)
}

/// The codes of the errors of the lexer.
pub open spec fn is_lexer_code(code: Option<Seq<char>>) -> bool {
    code == Some("E0001"@) || code == Some("E0003"@) || code == Some("E0004"@)
}

/// The codes of the errors of the parser: its own, and those that the lexer finds in what is
/// interpolated, which holds no string.
pub open spec fn is_parser_code(code: Option<Seq<char>>) -> bool {
    code == Some("E0002"@) || code == Some("E0300"@) || code == Some("E0001"@) || code == Some(
        "E0003"@,
    )
}

/// No quote stands in the text.
pub open spec fn unquoted(part: Seq<char>) -> bool {
    forall|k: int| 0 <= k < part.len() ==> #[trigger] part[k] != '"'
}

/// The source of a segment is the part of the text from `i` up to `j`.
pub open spec fn cut_out(src: Seq<char>, part: Seq<char>, offset: usize, i: int, j: int) -> bool {
    &&& 0 <= i <= j <= src.len()
    &&& part == src.subrange(i, j)
    &&& offset == byte_pos(src, i)
    &&& unquoted(part)
}

/// The source of a segment is a part of the text between two offsets.
pub open spec fn seg_in(src: Seq<char>, s: SegmentV, from: int, end: int) -> bool {
    s matches SegmentV::Expr { src: part, offset } ==> part_in(src, part, offset, from, end)
}

pub open spec fn part_in(
    src: Seq<char>,
    part: Seq<char>,
    offset: usize,
    from: int,
    end: int,
) -> bool {
    exists|i: int, j: int| #[trigger]
        cut_out(src, part, offset, i, j) && from <= offset && byte_pos(src, j) <= end
}

pub open spec fn segs_in(src: Seq<char>, segs: Seq<SegmentV>, from: int, end: int) -> bool {
    forall|k: int| 0 <= k < segs.len() ==> seg_in(src, #[trigger] segs[k], from, end)
}

pub open spec fn tok_in(src: Seq<char>, t: TokV, from: int, end: int) -> bool {
    t matches TokV::InterpStr(segs) ==> segs_in(src, segs, from, end)
}

/// Tokens that stand in the text one after the other.
pub open spec fn is_row(src: Seq<char>, file: FileId, ts: Seq<TokenV>) -> bool {
    &&& byte_len(src) <= usize::MAX
    &&& ts.len() > 0
    &&& ts.last().kind == TokV::Sym(Tok::Eof)
    &&& forall|k: int| 0 <= k < ts.len() ==> tok_stands(src, file, #[trigger] ts[k])
    &&& forall|k: int, m: int|
        0 <= k < m < ts.len() ==> (#[trigger] ts[k]).span.end <= (#[trigger] ts[m]).span.start
}

/// A token that stands in the text.
pub open spec fn tok_stands(src: Seq<char>, file: FileId, t: TokenV) -> bool {
    &&& is_spot(src, file, t.span)
    &&& tok_in(src, t.kind, t.span.start as int, t.span.end as int)
}

proof fn lemma_chars_span(src: Seq<char>, i: int, j: int, file: FileId)
    requires
        0 <= i <= j <= src.len(),
        byte_len(src) <= usize::MAX,
    ensures
        is_spot(src, file, chars_span(src, i, j, file)),
        chars_span(src, i, j, file).start == byte_pos(src, i),
        chars_span(src, i, j, file).end == byte_pos(src, j),
        byte_pos(src, i) <= byte_pos(src, j) <= byte_len(src),
{
    reveal(is_cut);
    lemma_byte_pos_mono(src, i, j);
    lemma_byte_pos_mono(src, j, src.len() as int);
    assert(src.take(src.len() as int) =~= src);
}

proof fn lemma_segs_later(src: Seq<char>, segs: Seq<SegmentV>, from: int, a: int, b: int)
    requires
        segs_in(src, segs, from, a),
        a <= b,
    ensures
        segs_in(src, segs, from, b),
{
    assert forall|k: int| 0 <= k < segs.len() implies seg_in(src, #[trigger] segs[k], from, b) by {
        if let SegmentV::Expr { src: part, offset } = segs[k] {
            let (i, j) = choose|i: int, j: int| #[trigger]
                cut_out(src, part, offset, i, j) && from <= offset && byte_pos(src, j) <= a;
            assert(cut_out(src, part, offset, i, j) && byte_pos(src, j) <= b);
        }
    }
}

proof fn lemma_code(src: Seq<char>, i: int)
    requires
        0 <= i <= src.len(),
    ensures
        i <= code_end(src, i) <= src.len(),
        unquoted(src.subrange(i, code_end(src, i))),
    decreases src.len() - i,
{
    if i < src.len() {
        lemma_code(src, i + 1);
        let e = code_end(src, i);
        if e > i {
            assert(e == code_end(src, i + 1));
            let part = src.subrange(i, e);
            assert forall|k: int| 0 <= k < part.len() implies #[trigger] part[k] != '"' by {
                if k > 0 {
                    assert(part[k] == src.subrange(i + 1, e)[k - 1]);
                }
            }
        }
    }
}

proof fn lemma_piece_fails(src: Seq<char>, i: int, start: int, file: FileId)
    requires
        0 <= start < i <= src.len(),
        byte_len(src) <= usize::MAX,
    ensures
        piece(src, i, start, file) matches Piece::Fail(d) ==> (d.span matches Some(s) && is_spot(
            src,
            file,
            s,
        )),
{
    lemma_chars_span(src, start, i, file);
    if i < src.len() {
        lemma_chars_span(src, start, i + 1, file);
        lemma_chars_span(src, i, i + 1, file);
        if i + 1 < src.len() {
            lemma_chars_span(src, i, i + 2, file);
        }
        lemma_code(src, i + 1);
        let e = code_end(src, i + 1);
        lemma_chars_span(src, start, e, file);
        if e < src.len() {
            lemma_chars_span(src, e, e + 1, file);
        }
    }
}

/// A string literal stands in the text, and so does what is wrong with it.
proof fn lemma_string(
    src: Seq<char>,
    i: int,
    start: int,
    file: FileId,
    segs: Seq<SegmentV>,
    cur: Seq<char>,
)
    requires
        0 <= start < i <= src.len(),
        byte_len(src) <= usize::MAX,
        segs_in(src, segs, byte_pos(src, start) as int, byte_pos(src, i) as int),
    ensures
        match scan_string(src, i, start, file, segs, cur) {
            Scan::Found(t, j) => tok_in(
                src,
                t,
                byte_pos(src, start) as int,
                byte_pos(src, j) as int,
            ),
            Scan::Fail(d) => d.span matches Some(s) && is_spot(src, file, s),
            Scan::Skip(_) => true,
        },
    decreases src.len() - i,
{
    let from = byte_pos(src, start) as int;
    lemma_piece_ahead(src, i, start, file);
    match piece(src, i, start, file) {
        Piece::Plain(c, j) => {
            lemma_byte_pos_mono(src, i, j);
            lemma_segs_later(src, segs, from, byte_pos(src, i) as int, byte_pos(src, j) as int);
            lemma_string(src, j, start, file, segs, cur.push(c));
        },
        Piece::Code(j) => {
            let end = byte_pos(src, j) as int;
            let part = src.subrange(i + 1, j - 1);
            let offset = byte_pos(src, i + 1) as usize;
            lemma_code(src, i + 1);
            lemma_chars_span(src, i + 1, j - 1, file);
            lemma_byte_pos_mono(src, start, i + 1);
            lemma_byte_pos_mono(src, j - 1, j);
            lemma_byte_pos_mono(src, i, j);
            let code = SegmentV::Expr { src: part, offset };
            assert(cut_out(src, part, offset, i + 1, j - 1));
            let more = segs.push(SegmentV::Lit(cur)).push(code);
            lemma_segs_later(src, segs, from, byte_pos(src, i) as int, end);
            assert forall|k: int| 0 <= k < more.len() implies seg_in(
                src,
                #[trigger] more[k],
                from,
                end,
            ) by {
                if k < segs.len() {
                    assert(seg_in(src, segs[k], from, end));
                }
            }
            lemma_string(src, j, start, file, more, Seq::empty());
        },
        Piece::Close => {
            let end = byte_pos(src, i + 1) as int;
            lemma_byte_pos_mono(src, i, i + 1);
            lemma_segs_later(src, segs, from, byte_pos(src, i) as int, end);
            let all = segs.push(SegmentV::Lit(cur));
            assert forall|k: int| 0 <= k < all.len() implies seg_in(
                src,
                #[trigger] all[k],
                from,
                end,
            ) by {
                if k < segs.len() {
                    assert(seg_in(src, segs[k], from, end));
                }
            }
        },
        Piece::Fail(_) => lemma_piece_fails(src, i, start, file),
    }
}

proof fn lemma_digits(src: Seq<char>, i: int)
    requires
        0 <= i <= src.len(),
    ensures
        i <= digits_end(src, i) <= src.len(),
    decreases src.len() - i,
{
    if i < src.len() {
        lemma_digits(src, i + 1);
    }
}

proof fn lemma_scan(src: Seq<char>, i: int, file: FileId)
    requires
        0 <= i < src.len(),
        byte_len(src) <= usize::MAX,
    ensures
        match scan(src, i, file) {
            Scan::Found(t, j) => {
                &&& tok_in(src, t, byte_pos(src, i) as int, byte_pos(src, j) as int)
                &&& t is InterpStr ==> src[i] == '"'
            },
            Scan::Fail(d) => d.span matches Some(s) && is_spot(src, file, s),
            Scan::Skip(_) => true,
        },
{
    lemma_string(src, i + 1, i, file, Seq::empty(), Seq::empty());
    lemma_digits(src, i);
    lemma_chars_span(src, i, digits_end(src, i), file);
    lemma_chars_span(src, i, i + 1, file);
}

/// The tokens of a text from an index on.
proof fn lemma_lex_from(src: Seq<char>, i: int, file: FileId)
    requires
        0 <= i <= src.len(),
        byte_len(src) <= usize::MAX,
    ensures
        match lex_from(src, i, file) {
            Ok(ts) => {
                &&& is_row(src, file, ts)
                &&& forall|k: int|
                    0 <= k < ts.len() ==> byte_pos(src, i) <= (#[trigger] ts[k]).span.start
                &&& unquoted(src) ==> forall|k: int|
                    0 <= k < ts.len() ==> (#[trigger] ts[k]).kind !is InterpStr
            },
            Err(d) => d.span matches Some(s) && is_spot(src, file, s),
        },
    decreases src.len() - i,
{
    if i == src.len() {
        lemma_chars_span(src, i, i, file);
    } else {
        lemma_scan_ahead(src, i, file);
        lemma_scan(src, i, file);
        match scan(src, i, file) {
            Scan::Skip(j) => {
                lemma_byte_pos_mono(src, i, j);
                lemma_lex_from(src, j, file);
            },
            Scan::Found(t, j) => {
                lemma_lex_from(src, j, file);
                lemma_chars_span(src, i, j, file);
                if let Ok(rest) = lex_from(src, j, file) {
                    let ts = lex_from(src, i, file)->Ok_0;
                    assert(ts.len() == rest.len() + 1);
                    assert(forall|k: int| 1 <= k < ts.len() ==> #[trigger] ts[k] == rest[k - 1]);
                    assert(tok_stands(src, file, ts[0]));
                    assert forall|k: int| 0 <= k < ts.len() implies tok_stands(
                        src,
                        file,
                        #[trigger] ts[k],
                    ) && byte_pos(src, i) <= ts[k].span.start by {
                        if k > 0 {
                            assert(ts[k] == rest[k - 1]);
                        }
                    }
                    assert forall|k: int, m: int| 0 <= k < m < ts.len() implies (#[trigger]
                    ts[k]).span.end <= (#[trigger] ts[m]).span.start by {
                        assert(ts[m] == rest[m - 1]);
                        if k > 0 {
                            assert(ts[k] == rest[k - 1]);
                        }
                    }
                    assert(ts.last() == rest.last());
                }
            },
            Scan::Fail(_) => {},
        }
    }
}

/// The tokens of a text stand in it one after the other, and an error of the lexer points
/// into it.
pub proof fn tokens_stand_in_their_text(src: Seq<char>, file: FileId)
    requires
        byte_len(src) <= usize::MAX,
    ensures
        match lexed(src, file) {
            Ok(ts) => is_row(src, file, ts),
            Err(d) => d.span matches Some(s) && is_spot(src, file, s) && is_lexer_code(d.code),
        },
{
    lemma_lex_from(src, 0, file);
    lemma_lexer_code(src, 0, file);
}

/// The code of an error in a string literal.
proof fn lemma_string_code(
    cs: Seq<char>,
    i: int,
    start: int,
    file: FileId,
    segs: Seq<SegmentV>,
    cur: Seq<char>,
)
    ensures
        scan_string(cs, i, start, file, segs, cur) matches Scan::Fail(d) ==> d.code == Some(
            "E0004"@,
        ),
    decreases cs.len() - i,
{
    lemma_piece_ahead(cs, i, start, file);
    match piece(cs, i, start, file) {
        Piece::Plain(c, j) => lemma_string_code(cs, j, start, file, segs, cur.push(c)),
        Piece::Code(j) => {
            let more = segs.push(SegmentV::Lit(cur)).push(
                SegmentV::Expr {
                    src: cs.subrange(i + 1, j - 1),
                    offset: byte_pos(cs, i + 1) as usize,
                },
            );
            lemma_string_code(cs, j, start, file, more, Seq::empty());
        },
        _ => {},
    }
}

/// The code of the first error from `i` on; without quotes there is none in a string.
proof fn lemma_lexer_code(cs: Seq<char>, i: int, file: FileId)
    ensures
        lex_from(cs, i, file) matches Err(d) ==> is_lexer_code(d.code) && (unquoted(cs) ==> d.code
            != Some("E0004"@)),
    decreases cs.len() - i,
{
    reveal_strlit("E0001");
    reveal_strlit("E0003");
    reveal_strlit("E0004");
    assert("E0001"@[4] != "E0004"@[4] && "E0003"@[4] != "E0004"@[4]);
    if 0 <= i < cs.len() {
        lemma_scan_ahead(cs, i, file);
        lemma_string_code(cs, i + 1, i, file, Seq::empty(), Seq::empty());
        if unquoted(cs) {
            assert(cs[i] != '"');
        }
        match scan(cs, i, file) {
            Scan::Skip(j) => lemma_lexer_code(cs, j, file),
            Scan::Found(_, j) => lemma_lexer_code(cs, j, file),
            Scan::Fail(_) => {},
        }
    }
}

/// An offset in a part of a text is one in the text.
proof fn lemma_cut_out(src: Seq<char>, part: Seq<char>, offset: usize, i: int, j: int, n: int)
    requires
        cut_out(src, part, offset, i, j),
        is_cut(part, n),
    ensures
        is_cut(src, offset + n),
        offset <= offset + n <= byte_pos(src, j),
{
    reveal(is_cut);
    let k = choose|k: int| 0 <= k <= part.len() && #[trigger] byte_pos(part, k) == n;
    assert(src.take(i + k) =~= src.take(i) + part.take(k));
    lemma_byte_len_concat(src.take(i), part.take(k));
    lemma_byte_pos_mono(src, i + k, j);
    assert(byte_pos(src, i + k) == offset + n);
}

proof fn lemma_shift(
    src: Seq<char>,
    part: Seq<char>,
    offset: usize,
    i: int,
    j: int,
    file: FileId,
    s: Span,
)
    requires
        byte_len(src) <= usize::MAX,
        cut_out(src, part, offset, i, j),
        is_spot(part, file, s),
    ensures
        is_spot(src, file, shift_span(s, offset)),
        shift_span(s, offset).start == s.start + offset,
        shift_span(s, offset).end == s.end + offset,
        shift_span(s, offset).end <= byte_pos(src, j),
{
    lemma_cut_out(src, part, offset, i, j, s.start as int);
    lemma_cut_out(src, part, offset, i, j, s.end as int);
    lemma_byte_pos_mono(src, j, src.len() as int);
    assert(src.take(src.len() as int) =~= src);
}

/// The tokens of a segment stand in the text of the string, between the same offsets.
pub proof fn lemma_segment(
    src: Seq<char>,
    file: FileId,
    part: Seq<char>,
    offset: usize,
    from: int,
    end: int,
)
    requires
        byte_len(src) <= usize::MAX,
        seg_in(src, SegmentV::Expr { src: part, offset }, from, end),
    ensures
        match lexed(part, file) {
            Ok(inner) => {
                let sub = shift_tokens(inner, offset);
                &&& is_row(src, file, sub)
                &&& nest(sub) == 0
                &&& forall|k: int|
                    0 <= k < sub.len() ==> from <= (#[trigger] sub[k]).span.start
                        && sub[k].span.end <= end
            },
            Err(d) => shift_diag(d, offset).span matches Some(s) && is_spot(src, file, s)
                && is_parser_code(d.code),
        },
{
    let (i, j) = choose|i: int, j: int| #[trigger]
        cut_out(src, part, offset, i, j) && from <= offset && byte_pos(src, j) <= end;
    assert(src =~= src.take(i) + part + src.skip(j));
    lemma_byte_len_concat(src.take(i) + part, src.skip(j));
    lemma_byte_len_concat(src.take(i), part);
    lemma_lex_from(part, 0, file);
    lemma_lexer_code(part, 0, file);
    match lexed(part, file) {
        Ok(inner) => {
            let sub = shift_tokens(inner, offset);
            assert forall|k: int| 0 <= k < sub.len() implies tok_stands(src, file, #[trigger] sub[k])
                && from <= sub[k].span.start && sub[k].span.end <= end && tok_nest(sub[k].kind)
                <= 0 by {
                assert(tok_stands(part, file, inner[k]));
                lemma_shift(src, part, offset, i, j, file, inner[k].span);
            }
            assert forall|k: int, m: int| 0 <= k < m < sub.len() implies (#[trigger]
            sub[k]).span.end <= (#[trigger] sub[m]).span.start by {
                assert(tok_stands(part, file, inner[k]));
                assert(tok_stands(part, file, inner[m]));
                lemma_shift(src, part, offset, i, j, file, inner[k].span);
                lemma_shift(src, part, offset, i, j, file, inner[m].span);
            }
            assert(sub.last().kind == inner.last().kind);
            lemma_nest_bound(sub, 0);
        },
        Err(d) => {
            lemma_shift(src, part, offset, i, j, file, d.span->0);
        },
    }
}

} // verus!
