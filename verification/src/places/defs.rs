//! The places of definitions and programs.
use vstd::prelude::*;
#[allow(unused_imports)]
use crate::ast::{EnumVariantV, ImportDeclV, ParamV, ProgramV};
#[allow(unused_imports)]
use crate::grammar::{
    at, block, def_head, definition, definitions, enum_def, function, ident, import, imports, left,
    opt_ty, param, params, params_rest, payload, program, struct_def, ty, types_rest, variant,
    variants, Parsed,
};
#[allow(unused_imports)]
use crate::lexer::lexed;
#[allow(unused_imports)]
use crate::places::exprs::{lemma_order, lemma_span_to, lemma_tok, points};
#[allow(unused_imports)]
use crate::places::rows::{is_lexer_code, is_row, is_spot, spots, tokens_stand_in_their_text};
#[allow(unused_imports)]
use crate::places::stmts::{lemma_block, lemma_opt_ty, lemma_ty};
#[allow(unused_imports)]
use crate::places::tree::{
    enum_in, func_in, imports_in, params_in, program_in, struct_in, variants_in,
};
#[allow(unused_imports)]
use crate::span::FileId;
#[allow(unused_imports)]
use crate::text::byte_len;
#[allow(unused_imports)]
use crate::token::{Tok, TokV, TokenV};
#[allow(unused_imports)]
use crate::types::Ty;

verus! {

proof fn lemma_param(src: Seq<char>, file: FileId, ts: Seq<TokenV>, p: int)
    requires
        is_row(src, file, ts),
        0 <= p < ts.len(),
    ensures
        match param(ts, p) {
            Parsed::Done(x, q) => p < q < ts.len() && is_spot(src, file, x.span),
            Parsed::Bad(d) => points(src, file, d),
        },
{
    lemma_tok(src, file, ts, p);
    if let Parsed::Done(name, q) = ident(ts, p) {
        lemma_tok(src, file, ts, q);
        if at(ts, q, Tok::Colon) {
            lemma_ty(src, file, ts, q + 1);
        }
    }
}

proof fn lemma_params_rest(
    src: Seq<char>,
    file: FileId,
    ts: Seq<TokenV>,
    p: int,
    close: Tok,
    trailing: bool,
    acc: Seq<ParamV>,
)
    requires
        is_row(src, file, ts),
        0 <= p < ts.len(),
        close != Tok::Eof,
        params_in(spots(src, file), acc),
    ensures
        match params_rest(ts, p, close, trailing, acc) {
            Parsed::Done(xs, q) => p < q < ts.len() && params_in(spots(src, file), xs),
            Parsed::Bad(d) => points(src, file, d),
        },
    decreases left(ts, p),
{
    lemma_param(src, file, ts, p);
    if let Parsed::Done(x, q) = param(ts, p) {
        assert(params_in(spots(src, file), acc.push(x)));
        lemma_tok(src, file, ts, q);
        if at(ts, q, Tok::Comma) {
            lemma_tok(src, file, ts, q + 1);
            if !(trailing && at(ts, q + 1, close)) {
                lemma_params_rest(src, file, ts, q + 1, close, trailing, acc.push(x));
            }
        }
    }
}

proof fn lemma_params(
    src: Seq<char>,
    file: FileId,
    ts: Seq<TokenV>,
    p: int,
    close: Tok,
    trailing: bool,
)
    requires
        is_row(src, file, ts),
        0 <= p < ts.len(),
        close != Tok::Eof,
    ensures
        match params(ts, p, close, trailing) {
            Parsed::Done(xs, q) => p < q < ts.len() && params_in(spots(src, file), xs),
            Parsed::Bad(d) => points(src, file, d),
        },
{
    lemma_tok(src, file, ts, p);
    if !at(ts, p, close) {
        lemma_params_rest(src, file, ts, p, close, trailing, Seq::empty());
    }
}

proof fn lemma_def_head(src: Seq<char>, file: FileId, ts: Seq<TokenV>, p: int, sym: Tok, open: Tok)
    requires
        is_row(src, file, ts),
        0 <= p < ts.len(),
        sym != Tok::Eof,
        open != Tok::Eof,
    ensures
        match def_head(ts, p, sym, open) {
            Parsed::Done(_, q) => p < q < ts.len(),
            Parsed::Bad(d) => points(src, file, d),
        },
{
    lemma_tok(src, file, ts, p);
    if at(ts, p, sym) {
        lemma_tok(src, file, ts, p + 1);
        if let Parsed::Done(_, q) = ident(ts, p + 1) {
            lemma_tok(src, file, ts, q);
        }
    }
}

proof fn lemma_struct(src: Seq<char>, file: FileId, ts: Seq<TokenV>, p: int, is_pub: bool)
    requires
        is_row(src, file, ts),
        0 <= p < ts.len(),
    ensures
        match struct_def(ts, p, is_pub) {
            Parsed::Done(d, q) => p < q < ts.len() && struct_in(spots(src, file), d),
            Parsed::Bad(d) => points(src, file, d),
        },
{
    lemma_def_head(src, file, ts, p, Tok::Struct, Tok::LBrace);
    if let Parsed::Done(_, q) = def_head(ts, p, Tok::Struct, Tok::LBrace) {
        lemma_params(src, file, ts, q, Tok::RBrace, true);
        if let Parsed::Done(_, q2) = params(ts, q, Tok::RBrace, true) {
            lemma_order(src, file, ts, p, q2 - 1);
            lemma_span_to(src, file, ts, ts[p].span.start, q2);
        }
    }
}

proof fn lemma_types(src: Seq<char>, file: FileId, ts: Seq<TokenV>, p: int, acc: Seq<Ty>)
    requires
        is_row(src, file, ts),
        0 <= p < ts.len(),
    ensures
        match types_rest(ts, p, acc) {
            Parsed::Done(_, q) => p < q < ts.len(),
            Parsed::Bad(d) => points(src, file, d),
        },
    decreases left(ts, p),
{
    lemma_ty(src, file, ts, p);
    if let Parsed::Done((t, _), q) = ty(ts, p) {
        lemma_tok(src, file, ts, q);
        if at(ts, q, Tok::Comma) {
            lemma_types(src, file, ts, q + 1, acc.push(t));
        }
    }
}

proof fn lemma_variant(src: Seq<char>, file: FileId, ts: Seq<TokenV>, p: int)
    requires
        is_row(src, file, ts),
        0 <= p < ts.len(),
    ensures
        match variant(ts, p) {
            Parsed::Done(v, q) => p < q < ts.len() && is_spot(src, file, v.span),
            Parsed::Bad(d) => points(src, file, d),
        },
{
    lemma_tok(src, file, ts, p);
    if let Parsed::Done(_, q) = ident(ts, p) {
        lemma_tok(src, file, ts, q);
        if at(ts, q, Tok::LParen) {
            lemma_tok(src, file, ts, q + 1);
            if !at(ts, q + 1, Tok::RParen) {
                lemma_types(src, file, ts, q + 1, Seq::empty());
            }
        }
        if let Parsed::Done(_, q2) = payload(ts, q) {
            lemma_order(src, file, ts, p, q2 - 1);
            lemma_span_to(src, file, ts, ts[p].span.start, q2);
        }
    }
}

proof fn lemma_variants(
    src: Seq<char>,
    file: FileId,
    ts: Seq<TokenV>,
    p: int,
    acc: Seq<EnumVariantV>,
)
    requires
        is_row(src, file, ts),
        0 <= p < ts.len(),
        variants_in(spots(src, file), acc),
    ensures
        match variants(ts, p, acc) {
            Parsed::Done(vs, q) => p < q < ts.len() && variants_in(spots(src, file), vs),
            Parsed::Bad(d) => points(src, file, d),
        },
    decreases left(ts, p),
{
    lemma_tok(src, file, ts, p);
    if !at(ts, p, Tok::RBrace) {
        lemma_variant(src, file, ts, p);
        if let Parsed::Done(v, q) = variant(ts, p) {
            assert(variants_in(spots(src, file), acc.push(v)));
            lemma_tok(src, file, ts, q);
            if at(ts, q, Tok::Comma) {
                lemma_variants(src, file, ts, q + 1, acc.push(v));
            }
        }
    }
}

proof fn lemma_enum(src: Seq<char>, file: FileId, ts: Seq<TokenV>, p: int, is_pub: bool)
    requires
        is_row(src, file, ts),
        0 <= p < ts.len(),
    ensures
        match enum_def(ts, p, is_pub) {
            Parsed::Done(d, q) => p < q < ts.len() && enum_in(spots(src, file), d),
            Parsed::Bad(d) => points(src, file, d),
        },
{
    lemma_def_head(src, file, ts, p, Tok::Enum, Tok::LBrace);
    if let Parsed::Done(_, q) = def_head(ts, p, Tok::Enum, Tok::LBrace) {
        lemma_variants(src, file, ts, q, Seq::empty());
        if let Parsed::Done(_, q2) = variants(ts, q, Seq::empty()) {
            lemma_order(src, file, ts, p, q2 - 1);
            lemma_span_to(src, file, ts, ts[p].span.start, q2);
        }
    }
}

proof fn lemma_function(src: Seq<char>, file: FileId, ts: Seq<TokenV>, p: int, is_pub: bool)
    requires
        is_row(src, file, ts),
        0 <= p < ts.len(),
    ensures
        match function(ts, p, is_pub) {
            Parsed::Done(d, q) => p < q < ts.len() && func_in(spots(src, file), d),
            Parsed::Bad(d) => points(src, file, d),
        },
{
    lemma_def_head(src, file, ts, p, Tok::Fn, Tok::LParen);
    if let Parsed::Done(_, q) = def_head(ts, p, Tok::Fn, Tok::LParen) {
        lemma_params(src, file, ts, q, Tok::RParen, false);
        if let Parsed::Done(_, q2) = params(ts, q, Tok::RParen, false) {
            lemma_opt_ty(src, file, ts, q2, Tok::Arrow);
            if let Parsed::Done(_, q3) = opt_ty(ts, q2, Tok::Arrow) {
                lemma_block(src, file, ts, q3);
                if let Parsed::Done(_, q4) = block(ts, q3) {
                    lemma_order(src, file, ts, p, q4 - 1);
                    lemma_span_to(src, file, ts, ts[p].span.start, q4);
                }
            }
        }
    }
}

proof fn lemma_imports(
    src: Seq<char>,
    file: FileId,
    ts: Seq<TokenV>,
    p: int,
    acc: Seq<ImportDeclV>,
)
    requires
        is_row(src, file, ts),
        0 <= p < ts.len(),
        imports_in(spots(src, file), acc),
    ensures
        match imports(ts, p, acc) {
            Parsed::Done(is, q) => p <= q < ts.len() && imports_in(spots(src, file), is),
            Parsed::Bad(d) => points(src, file, d),
        },
    decreases left(ts, p),
{
    lemma_tok(src, file, ts, p);
    if at(ts, p, Tok::Import) {
        lemma_tok(src, file, ts, p + 1);
        if let TokV::Str(path) = ts[p + 1].kind {
            lemma_tok(src, file, ts, p + 2);
            if let Parsed::Done(i, q) = import(ts, p) {
                lemma_order(src, file, ts, p, q - 1);
                lemma_span_to(src, file, ts, ts[p].span.start, q);
                assert(imports_in(spots(src, file), acc.push(i)));
                lemma_imports(src, file, ts, q, acc.push(i));
            }
        }
    }
}

proof fn lemma_definition(
    src: Seq<char>,
    file: FileId,
    ts: Seq<TokenV>,
    p: int,
    is_pub: bool,
    acc: ProgramV,
)
    requires
        is_row(src, file, ts),
        0 <= p < ts.len(),
        program_in(spots(src, file), acc),
    ensures
        match definition(ts, p, is_pub, acc) {
            Parsed::Done(more, q) => p < q < ts.len() && program_in(spots(src, file), more),
            Parsed::Bad(d) => points(src, file, d),
        },
{
    lemma_tok(src, file, ts, p);
    match ts[p].kind {
        TokV::Sym(Tok::Struct) => lemma_struct(src, file, ts, p, is_pub),
        TokV::Sym(Tok::Enum) => lemma_enum(src, file, ts, p, is_pub),
        TokV::Sym(Tok::Import) => {},
        _ => lemma_function(src, file, ts, p, is_pub),
    }
}

proof fn lemma_definitions(src: Seq<char>, file: FileId, ts: Seq<TokenV>, p: int, acc: ProgramV)
    requires
        is_row(src, file, ts),
        0 <= p < ts.len(),
        program_in(spots(src, file), acc),
    ensures
        match definitions(ts, p, acc) {
            Ok(all) => program_in(spots(src, file), all),
            Err(d) => points(src, file, d),
        },
    decreases left(ts, p),
{
    lemma_tok(src, file, ts, p);
    if !at(ts, p, Tok::Eof) {
        let is_pub = at(ts, p, Tok::Pub);
        let from = if is_pub {
            p + 1
        } else {
            p
        };
        lemma_definition(src, file, ts, from, is_pub, acc);
        if let Parsed::Done(more, q) = definition(ts, from, is_pub, acc) {
            lemma_definitions(src, file, ts, q, more);
        }
    }
}

/// Every span of the tree that a text reads as starts and ends between characters of the
/// text, and so does that of the error if it reads as none. The error has one of the codes of
/// the lexer or of the parser.
pub proof fn trees_stand_in_their_text(src: Seq<char>, file: FileId)
    requires
        byte_len(src) <= usize::MAX,
    ensures
        match lexed(src, file) {
            Ok(ts) => match program(ts) {
                Ok(p) => program_in(spots(src, file), p),
                Err(d) => points(src, file, d),
            },
            Err(d) => d.span matches Some(s) && is_spot(src, file, s) && is_lexer_code(d.code),
        },
{
    tokens_stand_in_their_text(src, file);
    if let Ok(ts) = lexed(src, file) {
        lemma_imports(src, file, ts, 0, Seq::empty());
        if let Parsed::Done(imports, p) = imports(ts, 0, Seq::empty()) {
            lemma_definitions(
                src,
                file,
                ts,
                p,
                ProgramV {
                    imports,
                    structs: Seq::empty(),
                    enums: Seq::empty(),
                    funcs: Seq::empty(),
                },
            );
        }
    }
}

/// A text that the lexer takes and the parser does not has an error that stands in the text,
/// and its code is that of a token out of place, of a bad type, or of a character or a number
/// that is interpolated.
pub proof fn parse_errors_have_their_codes(src: Seq<char>, file: FileId)
    requires
        byte_len(src) <= usize::MAX,
        lexed(src, file) is Ok,
    ensures
        program(lexed(src, file)->Ok_0) matches Err(d) ==> d.span is Some && (d.code == Some(
            "E0002"@,
        ) || d.code == Some("E0300"@) || d.code == Some("E0001"@) || d.code == Some("E0003"@)),
{
    trees_stand_in_their_text(src, file);
}

} // verus!
