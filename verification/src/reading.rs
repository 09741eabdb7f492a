//! Why the name of a type reads as the type.
use vstd::prelude::*;
#[allow(unused_imports)]
use crate::diagnostics::DiagV;
#[allow(unused_imports)]
use crate::grammar::{named_ty, ty, Parsed};
#[allow(unused_imports)]
use crate::lexer::{
    chars_span, is_name_char, is_name_start, is_space, keyword, lex_from, lexed, name_end,
    operator1, prepend,
};
#[allow(unused_imports)]
use crate::span::FileId;
#[allow(unused_imports)]
use crate::token::{Tok, TokV, TokenV};
#[allow(unused_imports)]
use crate::types::{ty_name, Ty};

verus! {

/// A name, as the lexer reads one: no keyword.
pub open spec fn is_name(n: Seq<char>) -> bool {
    &&& n.len() > 0
    &&& is_name_start(n[0])
    &&& !is_space(n[0])
    &&& forall|i: int| 1 <= i < n.len() ==> is_name_char(#[trigger] n[i])
    &&& keyword(n) is None
}

/// A type that can be written in a program: without `null`, and with names in it that are
/// not those of other types.
pub open spec fn is_written(t: Ty) -> bool
    decreases t,
{
    match t {
        Ty::Int | Ty::Bool | Ty::Float | Ty::Str => true,
        Ty::Array(e) => is_written(*e),
        Ty::MapOf(v) => is_written(*v),
        Ty::Struct(n) => is_name(n) && named_ty(n) == t,
        Ty::Enum(_) | Ty::Null => false,
    }
}

/// The text `s` stands at index `i`.
pub open spec fn stands_at(cs: Seq<char>, i: int, s: Seq<char>) -> bool {
    0 <= i && i + s.len() <= cs.len() && cs.subrange(i, i + s.len()) == s
}

/// No name goes on at `j`.
pub open spec fn breaks_at(cs: Seq<char>, j: int) -> bool {
    j == cs.len() || (0 <= j < cs.len() && !is_name_char(cs[j]))
}

/// The token from index `i` up to `j`.
pub open spec fn tok_at(cs: Seq<char>, i: int, j: int, kind: TokV, file: FileId) -> TokenV {
    TokenV { kind, span: chars_span(cs, i, j, file) }
}

/// The tokens of the name of a type that stands at index `i`.
pub open spec fn type_toks(cs: Seq<char>, i: int, t: Ty, file: FileId) -> Seq<TokenV>
    decreases t,
{
    let j = i + ty_name(t).len();
    match t {
        Ty::Array(e) => seq![tok_at(cs, i, i + 1, TokV::Sym(Tok::LBracket), file)] + type_toks(
            cs,
            i + 1,
            *e,
            file,
        ) + seq![tok_at(cs, j - 1, j, TokV::Sym(Tok::RBracket), file)],
        Ty::MapOf(v) => seq![
            tok_at(cs, i, i + 1, TokV::Sym(Tok::LBrace), file),
            tok_at(cs, i + 1, i + 7, TokV::Ident("string"@), file),
            tok_at(cs, i + 7, i + 8, TokV::Sym(Tok::Colon), file),
        ] + type_toks(cs, i + 9, *v, file) + seq![
            tok_at(cs, j - 1, j, TokV::Sym(Tok::RBrace), file),
        ],
        _ => seq![tok_at(cs, i, j, TokV::Ident(ty_name(t)), file)],
    }
}

pub proof fn lemma_prepend(a: Seq<TokenV>, b: Seq<TokenV>, r: Result<Seq<TokenV>, DiagV>)
    ensures
        prepend(a, prepend(b, r)) == prepend(a + b, r),
{
    if let Ok(rest) = r {
        assert(a + (b + rest) =~= a + b + rest);
    }
}

/// Where a name ends.
pub proof fn lemma_name_end(cs: Seq<char>, i: int, k: int, n: Seq<char>)
    requires
        stands_at(cs, i, n),
        breaks_at(cs, i + n.len()),
        forall|m: int| 1 <= m < n.len() ==> is_name_char(#[trigger] n[m]),
        1 <= k <= n.len(),
    ensures
        name_end(cs, i + k) == i + n.len(),
    decreases n.len() - k,
{
    if k < n.len() {
        assert(cs.subrange(i, i + n.len())[k] == cs[i + k]);
        lemma_name_end(cs, i, k + 1, n);
    }
}

/// A name is read as one.
proof fn lemma_lex_name(cs: Seq<char>, i: int, n: Seq<char>, file: FileId)
    requires
        is_name(n),
        stands_at(cs, i, n),
        breaks_at(cs, i + n.len()),
    ensures
        lex_from(cs, i, file) == prepend(
            seq![tok_at(cs, i, i + n.len(), TokV::Ident(n), file)],
            lex_from(cs, i + n.len(), file),
        ),
{
    assert(cs.subrange(i, i + n.len())[0] == cs[i]);
    lemma_name_end(cs, i, 1, n);
}

/// A bracket, a brace or a colon is read as one.
proof fn lemma_lex_mark(cs: Seq<char>, i: int, file: FileId)
    requires
        0 <= i < cs.len(),
        cs[i] == '[' || cs[i] == ']' || cs[i] == '{' || cs[i] == '}' || cs[i] == ':',
    ensures
        lex_from(cs, i, file) == prepend(
            seq![tok_at(cs, i, i + 1, TokV::Sym(operator1(cs[i])->0), file)],
            lex_from(cs, i + 1, file),
        ),
{
}

/// The names of the basic types are names.
proof fn lemma_basic_names()
    ensures
        is_name("int"@),
        is_name("bool"@),
        is_name("float"@),
        is_name("string"@),
        "string"@.len() == 6,
{
    reveal_strlit("int");
    reveal_strlit("bool");
    reveal_strlit("float");
    reveal_strlit("string");
    lemma_no_keyword("int"@);
    lemma_no_keyword("bool"@);
    lemma_no_keyword("float"@);
    lemma_no_keyword("string"@);
}

proof fn lemma_no_keyword(s: Seq<char>)
    requires
        s == "int"@ || s == "bool"@ || s == "float"@ || s == "string"@,
    ensures
        keyword(s) is None,
{
    reveal_strlit("int");
    reveal_strlit("bool");
    reveal_strlit("float");
    reveal_strlit("string");
    reveal_strlit("fn");
    reveal_strlit("struct");
    reveal_strlit("enum");
    reveal_strlit("match");
    reveal_strlit("import");
    reveal_strlit("pub");
    reveal_strlit("let");
    reveal_strlit("if");
    reveal_strlit("else");
    reveal_strlit("while");
    reveal_strlit("for");
    reveal_strlit("in");
    reveal_strlit("break");
    reveal_strlit("continue");
    reveal_strlit("return");
    reveal_strlit("print");
    reveal_strlit("true");
    reveal_strlit("false");
    reveal_strlit("null");
    assert(s[0] != "fn"@[0] || s.len() != "fn"@.len());
    assert(s[3] != "struct"@[3] || s.len() != "struct"@.len());
    assert(s[0] != "enum"@[0] || s.len() != "enum"@.len());
    assert(s[0] != "match"@[0] || s.len() != "match"@.len());
    assert(s[0] != "import"@[0] || s.len() != "import"@.len());
    assert(s[0] != "pub"@[0] || s.len() != "pub"@.len());
    assert(s[0] != "let"@[0] || s.len() != "let"@.len());
    assert(s[0] != "else"@[0] || s.len() != "else"@.len());
    assert(s[0] != "while"@[0] || s.len() != "while"@.len());
    assert(s[0] != "for"@[0] || s.len() != "for"@.len());
    assert(s[1] != "break"@[1] || s.len() != "break"@.len());
    assert(s[0] != "continue"@[0] || s.len() != "continue"@.len());
    assert(s[0] != "return"@[0] || s.len() != "return"@.len());
    assert(s[0] != "print"@[0] || s.len() != "print"@.len());
    assert(s[0] != "true"@[0] || s.len() != "true"@.len());
    assert(s[1] != "false"@[1] || s.len() != "false"@.len());
    assert(s[0] != "null"@[0] || s.len() != "null"@.len());
}

/// The name of an array or a map from its parts.
proof fn lemma_nested(cs: Seq<char>, i: int, t: Ty)
    requires
        stands_at(cs, i, ty_name(t)),
    ensures
        match t {
            Ty::Array(e) => {
                let j = i + 1 + ty_name(*e).len();
                &&& ty_name(t).len() == ty_name(*e).len() + 2
                &&& cs[i] == '['
                &&& stands_at(cs, i + 1, ty_name(*e))
                &&& cs[j] == ']'
            },
            Ty::MapOf(v) => {
                let j = i + 9 + ty_name(*v).len();
                &&& ty_name(t).len() == ty_name(*v).len() + 10
                &&& cs[i] == '{'
                &&& stands_at(cs, i + 1, "string"@)
                &&& cs[i + 7] == ':'
                &&& cs[i + 8] == ' '
                &&& stands_at(cs, i + 9, ty_name(*v))
                &&& cs[j] == '}'
            },
            _ => true,
        },
{
    reveal_strlit("[");
    reveal_strlit("]");
    reveal_strlit("{string: ");
    reveal_strlit("}");
    reveal_strlit("string");
    let name = ty_name(t);
    assert forall|k: int| 0 <= k < name.len() implies #[trigger] cs[i + k] == name[k] by {
        assert(cs.subrange(i, i + name.len())[k] == cs[i + k]);
    }
    match t {
        Ty::Array(e) => {
            let inner = ty_name(*e);
            assert(cs[i + 0] == name[0]);
            assert(cs[i + (1 + inner.len())] == name[1 + inner.len() as int]);
            assert(cs.subrange(i + 1, i + 1 + inner.len()) =~= inner) by {
                assert forall|k: int| 0 <= k < inner.len() implies cs[i + 1 + k] == inner[k] by {
                    assert(cs[i + (1 + k)] == name[1 + k]);
                }
            }
        },
        Ty::MapOf(v) => {
            let inner = ty_name(*v);
            assert(cs[i + 0] == name[0]);
            assert(cs[i + 7] == name[7]);
            assert(cs[i + 8] == name[8]);
            assert(cs[i + (9 + inner.len())] == name[9 + inner.len() as int]);
            assert(cs.subrange(i + 1, i + 1 + 6) =~= "string"@) by {
                assert forall|k: int| 0 <= k < 6 implies cs[i + 1 + k] == "string"@[k] by {
                    assert(cs[i + (1 + k)] == name[1 + k]);
                }
            }
            assert(cs.subrange(i + 9, i + 9 + inner.len()) =~= inner) by {
                assert forall|k: int| 0 <= k < inner.len() implies cs[i + 9 + k] == inner[k] by {
                    assert(cs[i + (9 + k)] == name[9 + k]);
                }
            }
        },
        _ => {},
    }
}

/// The name of a type is read as its tokens.
proof fn lemma_lex_type(cs: Seq<char>, i: int, t: Ty, file: FileId)
    requires
        is_written(t),
        stands_at(cs, i, ty_name(t)),
        breaks_at(cs, i + ty_name(t).len()),
    ensures
        lex_from(cs, i, file) == prepend(
            type_toks(cs, i, t, file),
            lex_from(cs, i + ty_name(t).len(), file),
        ),
    decreases t,
{
    lemma_basic_names();
    lemma_nested(cs, i, t);
    let j = i + ty_name(t).len();
    let rest = lex_from(cs, j, file);
    match t {
        Ty::Array(e) => {
            lemma_lex_mark(cs, i, file);
            lemma_lex_type(cs, i + 1, *e, file);
            lemma_lex_mark(cs, j - 1, file);
            let a = seq![tok_at(cs, i, i + 1, TokV::Sym(Tok::LBracket), file)];
            let b = type_toks(cs, i + 1, *e, file);
            let c = seq![tok_at(cs, j - 1, j, TokV::Sym(Tok::RBracket), file)];
            lemma_prepend(b, c, rest);
            lemma_prepend(a, b + c, rest);
            assert(a + (b + c) =~= type_toks(cs, i, t, file));
        },
        Ty::MapOf(v) => {
            lemma_lex_mark(cs, i, file);
            lemma_lex_name(cs, i + 1, "string"@, file);
            lemma_lex_mark(cs, i + 7, file);
            assert(lex_from(cs, i + 8, file) == lex_from(cs, i + 9, file));
            lemma_lex_type(cs, i + 9, *v, file);
            lemma_lex_mark(cs, j - 1, file);
            let a = seq![tok_at(cs, i, i + 1, TokV::Sym(Tok::LBrace), file)];
            let n = seq![tok_at(cs, i + 1, i + 7, TokV::Ident("string"@), file)];
            let m = seq![tok_at(cs, i + 7, i + 8, TokV::Sym(Tok::Colon), file)];
            let b = type_toks(cs, i + 9, *v, file);
            let c = seq![tok_at(cs, j - 1, j, TokV::Sym(Tok::RBrace), file)];
            lemma_prepend(b, c, rest);
            lemma_prepend(m, b + c, rest);
            lemma_prepend(n, m + (b + c), rest);
            lemma_prepend(a, n + (m + (b + c)), rest);
            assert(a + (n + (m + (b + c))) =~= type_toks(cs, i, t, file));
        },
        _ => lemma_lex_name(cs, i, ty_name(t), file),
    }
}

/// The tokens of a type stand at `p`.
pub open spec fn toks_at(ts: Seq<TokenV>, p: int, row: Seq<TokenV>) -> bool {
    &&& 0 <= p
    &&& p + row.len() < ts.len()
    &&& forall|k: int| 0 <= k < row.len() ==> #[trigger] ts[p + k] == row[k]
}

proof fn lemma_toks_part(ts: Seq<TokenV>, p: int, a: Seq<TokenV>, b: Seq<TokenV>, c: Seq<TokenV>)
    requires
        toks_at(ts, p, a + b + c),
    ensures
        toks_at(ts, p + a.len(), b),
        forall|k: int| 0 <= k < a.len() ==> #[trigger] ts[p + k] == a[k],
        forall|k: int| 0 <= k < c.len() ==> ts[p + a.len() + b.len() + k] == #[trigger] c[k],
{
    let row = a + b + c;
    assert forall|k: int| 0 <= k < b.len() implies #[trigger] ts[p + a.len() + k] == b[k] by {
        assert(ts[p + (a.len() + k)] == row[a.len() + k]);
    }
    assert forall|k: int| 0 <= k < a.len() implies #[trigger] ts[p + k] == a[k] by {
        assert(ts[p + k] == row[k]);
    }
    assert forall|k: int| 0 <= k < c.len() implies ts[p + a.len() + b.len() + k]
        == #[trigger] c[k] by {
        assert(ts[p + (a.len() + b.len() + k)] == row[a.len() + b.len() + k]);
    }
}

/// The tokens of a type are read as the type.
proof fn lemma_ty(ts: Seq<TokenV>, p: int, cs: Seq<char>, i: int, t: Ty, file: FileId)
    requires
        is_written(t),
        ts.len() > 0,
        ts[0].span.file == file,
        toks_at(ts, p, type_toks(cs, i, t, file)),
        stands_at(cs, i, ty_name(t)),
    ensures
        ty(ts, p) == Parsed::Done(
            (t, chars_span(cs, i, i + ty_name(t).len(), file)),
            p + type_toks(cs, i, t, file).len(),
        ),
        type_toks(cs, i, t, file).len() > 0,
    decreases t,
{
    lemma_nested(cs, i, t);
    reveal_strlit("int");
    reveal_strlit("bool");
    reveal_strlit("float");
    reveal_strlit("string");
    let j = i + ty_name(t).len();
    match t {
        Ty::Array(e) => {
            let a = seq![tok_at(cs, i, i + 1, TokV::Sym(Tok::LBracket), file)];
            let b = type_toks(cs, i + 1, *e, file);
            let c = seq![tok_at(cs, j - 1, j, TokV::Sym(Tok::RBracket), file)];
            lemma_toks_part(ts, p, a, b, c);
            lemma_ty(ts, p + 1, cs, i + 1, *e, file);
            assert(ts[p + 0] == a[0]);
            assert(ts[p + a.len() + b.len() + 0] == c[0]);
        },
        Ty::MapOf(v) => {
            let a = seq![
                tok_at(cs, i, i + 1, TokV::Sym(Tok::LBrace), file),
                tok_at(cs, i + 1, i + 7, TokV::Ident("string"@), file),
                tok_at(cs, i + 7, i + 8, TokV::Sym(Tok::Colon), file),
            ];
            let b = type_toks(cs, i + 9, *v, file);
            let c = seq![tok_at(cs, j - 1, j, TokV::Sym(Tok::RBrace), file)];
            lemma_toks_part(ts, p, a, b, c);
            lemma_ty(ts, p + 3, cs, i + 9, *v, file);
            assert(ts[p + 0] == a[0]);
            assert(ts[p + 1] == a[1]);
            assert(ts[p + 2] == a[2]);
            assert(ts[p + a.len() + b.len() + 0] == c[0]);
            assert("string"@.len() == 6 && "int"@.len() == 3 && "bool"@.len() == 4
                && "float"@.len() == 5);
            assert(ty(ts, p + 1) == Parsed::Done(
                (Ty::Str, chars_span(cs, i + 1, i + 7, file)),
                p + 2,
            ));
        },
        _ => {
            let row = type_toks(cs, i, t, file);
            assert(ts[p + 0] == row[0]);
            assert("string"@.len() == 6 && "int"@.len() == 3 && "bool"@.len() == 4
                && "float"@.len() == 5);
        },
    }
}

/// Reading the name of a type that can be written gives the type back, with the span of the
/// whole name, and nothing is left of it.
pub proof fn type_names_read_as_their_types(t: Ty, file: FileId)
    requires
        is_written(t),
    ensures
        lexed(ty_name(t), file) matches Ok(ts) && ts.last().kind == TokV::Sym(Tok::Eof) && ty(ts, 0)
            == Parsed::Done(
            (t, chars_span(ty_name(t), 0, ty_name(t).len() as int, file)),
            ts.len() - 1,
        ),
{
    let cs = ty_name(t);
    assert(cs.subrange(0, cs.len() as int) =~= cs);
    lemma_lex_type(cs, 0, t, file);
    let row = type_toks(cs, 0, t, file);
    let end = tok_at(cs, cs.len() as int, cs.len() as int, TokV::Sym(Tok::Eof), file);
    let ts = row + seq![end];
    assert(lexed(cs, file) == Ok::<Seq<TokenV>, DiagV>(ts));
    assert(ts.last() == end);
    assert forall|k: int| 0 <= k < row.len() implies #[trigger] ts[0 + k] == row[k] by {}
    lemma_first(cs, 0, t, file);
    assert(ts[0] == row[0]);
    lemma_ty(ts, 0, cs, 0, t, file);
}

/// The first token of a type stands in the file.
proof fn lemma_first(cs: Seq<char>, i: int, t: Ty, file: FileId)
    ensures
        type_toks(cs, i, t, file).len() > 0,
        type_toks(cs, i, t, file)[0].span.file == file,
{
    match t {
        Ty::Array(e) => {
            let b = type_toks(cs, i + 1, *e, file);
            assert(type_toks(cs, i, t, file)[0] == tok_at(
                cs,
                i,
                i + 1,
                TokV::Sym(Tok::LBracket),
                file,
            ));
        },
        Ty::MapOf(v) => {
            assert(type_toks(cs, i, t, file)[0] == tok_at(
                cs,
                i,
                i + 1,
                TokV::Sym(Tok::LBrace),
                file,
            ));
        },
        _ => {},
    }
}

} // verus!
