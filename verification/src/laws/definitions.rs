//! Programs are read as they are written.
use crate::token::Tok;
use vstd::prelude::*;
#[allow(unused_imports)]
use crate::ast::{
    EnumDefV, EnumVariantV, FunctionV, ImportDeclV, ParamV, ProgramV, StructDefV,
};
#[allow(unused_imports)]
use crate::grammar::{
    at, definition, definitions, enum_def, function, import, imports, param, params, params_rest,
    program, struct_def, ty, types_rest, variant, variants, Parsed,
};
#[allow(unused_imports)]
use crate::laws::statements::{
    are_stmts, bare_stmts, braced, is_ty, lemma_block, stmts_row, ty_row,
    types_are_read_as_they_are_written,
};
#[allow(unused_imports)]
use crate::laws::trees::{comma, lemma_stands, lemma_stands_one, stands, sym, wrapped};
#[allow(unused_imports)]
use crate::token::{TokV, TokenV};
#[allow(unused_imports)]
use crate::types::Ty;

verus! {

// Parameters and fields.

pub open spec fn are_params(xs: Seq<ParamV>) -> bool {
    forall|i: int| 0 <= i < xs.len() ==> is_ty((#[trigger] xs[i]).ty)
}

/// The parameters or fields from `i` on, with commas between them.
pub open spec fn params_row(xs: Seq<ParamV>, i: int) -> Seq<TokV>
    decreases xs.len() - i,
{
    if !(0 <= i < xs.len()) {
        Seq::empty()
    } else {
        seq![TokV::Ident(xs[i].name), sym(Tok::Colon)] + ty_row(xs[i].ty) + comma(i, xs.len())
            + params_row(xs, i + 1)
    }
}

/// The first `n` of two rows of parameters have the same names and types.
pub open spec fn params_alike(a: Seq<ParamV>, b: Seq<ParamV>, n: int) -> bool {
    &&& n <= a.len()
    &&& n <= b.len()
    &&& forall|i: int| 0 <= i < n ==> (#[trigger] a[i]).name == b[i].name && a[i].ty == b[i].ty
}

#[verifier::rlimit(60)]
#[verifier::spinoff_prover]
proof fn lemma_params(
    ts: Seq<TokenV>,
    p: int,
    xs: Seq<ParamV>,
    i: int,
    close: Tok,
    trailing: bool,
    acc: Seq<ParamV>,
) -> (r: Seq<ParamV>)
    requires
        close is RParen || close is RBrace,
        are_params(xs),
        0 <= i < xs.len(),
        stands(ts, p, params_row(xs, i) + seq![sym(close)]),
        acc.len() == i,
        params_alike(acc, xs, i),
    ensures
        params_rest(ts, p, close, trailing, acc) == Parsed::Done(
            r,
            p + params_row(xs, i).len() + 1,
        ),
        r.len() == xs.len(),
        params_alike(r, xs, xs.len() as int),
    decreases xs.len() - i,
{
    let x = xs[i];
    let head = seq![TokV::Ident(x.name), sym(Tok::Colon)];
    let t = ty_row(x.ty);
    let mark = comma(i, xs.len());
    let rest = params_row(xs, i + 1);
    let end = seq![sym(close)];
    assert(params_row(xs, i) + end =~= head + (t + (mark + rest + end)));
    lemma_stands(ts, p, head, t + (mark + rest + end));
    assert(ts[p + 0].kind == head[0]);
    assert(ts[p + 1].kind == head[1]);
    lemma_stands(ts, p + 2, t, mark + rest + end);
    types_are_read_as_they_are_written(ts, p + 2, x.ty);
    let q = p + 2 + t.len();
    let d = param(ts, p)->Done_0;
    assert(param(ts, p) == Parsed::Done(d, q));
    assert(params_alike(acc.push(d), xs, i + 1));
    if i + 1 < xs.len() {
        assert(mark + rest + end =~= seq![sym(Tok::Comma)] + (rest + end));
        lemma_stands(ts, q, seq![sym(Tok::Comma)], rest + end);
        lemma_stands_one(ts, q, sym(Tok::Comma));
        assert(rest[0] == TokV::Ident(xs[i + 1].name));
        assert((rest + end)[0] == rest[0]);
        assert(ts[q + 1 + 0].kind == (rest + end)[0]);
        lemma_params(ts, q + 1, xs, i + 1, close, trailing, acc.push(d))
    } else {
        assert(rest =~= Seq::empty());
        assert(mark + rest + end =~= end);
        lemma_stands_one(ts, q, sym(close));
        acc.push(d)
    }
}

proof fn lemma_all_params(
    ts: Seq<TokenV>,
    p: int,
    xs: Seq<ParamV>,
    close: Tok,
    trailing: bool,
) -> (r: Seq<ParamV>)
    requires
        close is RParen || close is RBrace,
        are_params(xs),
        stands(ts, p, params_row(xs, 0) + seq![sym(close)]),
    ensures
        params(ts, p, close, trailing) == Parsed::Done(r, p + params_row(xs, 0).len() + 1),
        r.len() == xs.len(),
        params_alike(r, xs, xs.len() as int),
{
    let row = params_row(xs, 0) + seq![sym(close)];
    if xs.len() == 0 {
        assert(row =~= seq![sym(close)]);
        lemma_stands_one(ts, p, sym(close));
        Seq::empty()
    } else {
        assert(params_row(xs, 0)[0] == TokV::Ident(xs[0].name));
        assert(row[0] == params_row(xs, 0)[0]);
        assert(ts[p + 0].kind == row[0]);
        lemma_params(ts, p, xs, 0, close, trailing, Seq::empty())
    }
}

/// `pub`, where it stands.
pub open spec fn pub_row(is_pub: bool) -> Seq<TokV> {
    if is_pub {
        seq![sym(Tok::Pub)]
    } else {
        Seq::empty()
    }
}

// Structures.

pub open spec fn struct_row(d: StructDefV) -> Seq<TokV> {
    seq![sym(Tok::Struct), TokV::Ident(d.name), sym(Tok::LBrace)] + (params_row(d.fields, 0) + seq![
        sym(Tok::RBrace),
    ])
}

pub open spec fn struct_alike(a: StructDefV, b: StructDefV) -> bool {
    &&& a.name == b.name
    &&& a.is_pub == b.is_pub
    &&& a.fields.len() == b.fields.len()
    &&& params_alike(a.fields, b.fields, a.fields.len() as int)
}

proof fn lemma_struct(ts: Seq<TokenV>, p: int, d: StructDefV)
    requires
        are_params(d.fields),
        stands(ts, p, struct_row(d)),
    ensures
        struct_def(ts, p, d.is_pub) matches Parsed::Done(r, q) && q == p + struct_row(d).len()
            && struct_alike(r, d),
{
    let head = seq![sym(Tok::Struct), TokV::Ident(d.name), sym(Tok::LBrace)];
    let body = params_row(d.fields, 0) + seq![sym(Tok::RBrace)];
    lemma_stands(ts, p, head, body);
    assert(ts[p + 0].kind == head[0]);
    assert(ts[p + 1].kind == head[1]);
    assert(ts[p + 2].kind == head[2]);
    let r = lemma_all_params(ts, p + 3, d.fields, Tok::RBrace, true);
}

// Sum types.

pub open spec fn are_tys(xs: Seq<Ty>) -> bool {
    forall|i: int| 0 <= i < xs.len() ==> is_ty(#[trigger] xs[i])
}

/// The types from `i` on, with commas between them.
pub open spec fn types_row(xs: Seq<Ty>, i: int) -> Seq<TokV>
    decreases xs.len() - i,
{
    if !(0 <= i < xs.len()) {
        Seq::empty()
    } else {
        ty_row(xs[i]) + comma(i, xs.len()) + types_row(xs, i + 1)
    }
}

proof fn lemma_types(ts: Seq<TokenV>, p: int, xs: Seq<Ty>, i: int, acc: Seq<Ty>)
    requires
        are_tys(xs),
        0 <= i < xs.len(),
        stands(ts, p, types_row(xs, i) + seq![sym(Tok::RParen)]),
        acc == xs.take(i),
    ensures
        types_rest(ts, p, acc) == Parsed::Done(xs, p + types_row(xs, i).len() + 1),
    decreases xs.len() - i,
{
    let t = ty_row(xs[i]);
    let mark = comma(i, xs.len());
    let rest = types_row(xs, i + 1);
    let end = seq![sym(Tok::RParen)];
    assert(types_row(xs, i) + end =~= t + (mark + rest + end));
    lemma_stands(ts, p, t, mark + rest + end);
    types_are_read_as_they_are_written(ts, p, xs[i]);
    let q = p + t.len();
    assert(acc.push(xs[i]) =~= xs.take(i + 1));
    if i + 1 < xs.len() {
        assert(mark + rest + end =~= seq![sym(Tok::Comma)] + (rest + end));
        lemma_stands(ts, q, seq![sym(Tok::Comma)], rest + end);
        lemma_stands_one(ts, q, sym(Tok::Comma));
        lemma_types(ts, q + 1, xs, i + 1, acc.push(xs[i]));
    } else {
        assert(rest =~= Seq::empty());
        assert(mark + rest + end =~= end);
        lemma_stands_one(ts, q, sym(Tok::RParen));
        assert(xs.take(i + 1) =~= xs);
    }
}

pub open spec fn variant_row(v: EnumVariantV) -> Seq<TokV> {
    seq![TokV::Ident(v.name)] + (if v.fields.len() == 0 {
        Seq::empty()
    } else {
        wrapped(types_row(v.fields, 0))
    })
}

proof fn lemma_ty_first(t: Ty)
    requires
        is_ty(t),
    ensures
        ty_row(t).len() > 0,
        ty_row(t)[0] != sym(Tok::RParen),
{
    match t {
        Ty::Array(e) => {
            assert(ty_row(t)[0] == sym(Tok::LBracket));
        },
        Ty::MapOf(v) => {
            assert(ty_row(t)[0] == sym(Tok::LBrace));
        },
        _ => {},
    }
}

proof fn lemma_variant(ts: Seq<TokenV>, p: int, v: EnumVariantV)
    requires
        are_tys(v.fields),
        stands(ts, p, variant_row(v)),
        p + variant_row(v).len() < ts.len(),
        ts[p + variant_row(v).len()].kind != sym(Tok::LParen),
    ensures
        variant(ts, p) matches Parsed::Done(r, q) && q == p + variant_row(v).len() && r.name
            == v.name && r.fields == v.fields,
{
    let head = seq![TokV::Ident(v.name)];
    if v.fields.len() == 0 {
        assert(variant_row(v) =~= head);
        lemma_stands_one(ts, p, TokV::Ident(v.name));
        assert(v.fields =~= Seq::<Ty>::empty());
    } else {
        let ks = types_row(v.fields, 0);
        let open = seq![sym(Tok::LParen)];
        let close = seq![sym(Tok::RParen)];
        assert(variant_row(v) =~= head + (open + (ks + close)));
        lemma_stands(ts, p, head, open + (ks + close));
        lemma_stands_one(ts, p, TokV::Ident(v.name));
        lemma_stands(ts, p + 1, open, ks + close);
        lemma_stands_one(ts, p + 1, sym(Tok::LParen));
        lemma_ty_first(v.fields[0]);
        assert(ks[0] == ty_row(v.fields[0])[0]);
        assert((ks + close)[0] == ks[0]);
        assert(ts[p + 2 + 0].kind == (ks + close)[0]);
        assert(v.fields.take(0) =~= Seq::<Ty>::empty());
        lemma_types(ts, p + 2, v.fields, 0, Seq::empty());
    }
}

pub open spec fn are_variants(xs: Seq<EnumVariantV>) -> bool {
    forall|i: int| 0 <= i < xs.len() ==> are_tys((#[trigger] xs[i]).fields)
}

pub open spec fn variants_row(xs: Seq<EnumVariantV>, i: int) -> Seq<TokV>
    decreases xs.len() - i,
{
    if !(0 <= i < xs.len()) {
        Seq::empty()
    } else {
        variant_row(xs[i]) + comma(i, xs.len()) + variants_row(xs, i + 1)
    }
}

pub open spec fn variants_alike(a: Seq<EnumVariantV>, b: Seq<EnumVariantV>, n: int) -> bool {
    &&& n <= a.len()
    &&& n <= b.len()
    &&& forall|i: int|
        0 <= i < n ==> (#[trigger] a[i]).name == b[i].name && a[i].fields == b[i].fields
}

#[verifier::rlimit(60)]
#[verifier::spinoff_prover]
proof fn lemma_variants(
    ts: Seq<TokenV>,
    p: int,
    xs: Seq<EnumVariantV>,
    i: int,
    acc: Seq<EnumVariantV>,
) -> (r: Seq<EnumVariantV>)
    requires
        are_variants(xs),
        0 <= i <= xs.len(),
        stands(ts, p, variants_row(xs, i) + seq![sym(Tok::RBrace)]),
        acc.len() == i,
        variants_alike(acc, xs, i),
    ensures
        variants(ts, p, acc) == Parsed::Done(r, p + variants_row(xs, i).len() + 1),
        r.len() == xs.len(),
        variants_alike(r, xs, xs.len() as int),
    decreases xs.len() - i,
{
    let end = seq![sym(Tok::RBrace)];
    if i == xs.len() {
        assert(variants_row(xs, i) + end =~= end);
        lemma_stands_one(ts, p, sym(Tok::RBrace));
        acc
    } else {
        let v = xs[i];
        let row = variant_row(v);
        let mark = comma(i, xs.len());
        let rest = variants_row(xs, i + 1);
        assert(variants_row(xs, i) + end =~= row + (mark + rest + end));
        lemma_stands(ts, p, row, mark + rest + end);
        let q = p + row.len();
        assert(row[0] == TokV::Ident(v.name));
        assert(ts[p + 0].kind == row[0]);
        if i + 1 < xs.len() {
            assert(mark + rest + end =~= seq![sym(Tok::Comma)] + (rest + end));
            lemma_stands(ts, q, seq![sym(Tok::Comma)], rest + end);
            lemma_stands_one(ts, q, sym(Tok::Comma));
            lemma_variant(ts, p, v);
            let d = variant(ts, p)->Done_0;
            assert(variants_alike(acc.push(d), xs, i + 1));
            lemma_variants(ts, q + 1, xs, i + 1, acc.push(d))
        } else {
            assert(rest =~= Seq::empty());
            assert(mark + rest + end =~= end);
            lemma_stands_one(ts, q, sym(Tok::RBrace));
            lemma_variant(ts, p, v);
            let d = variant(ts, p)->Done_0;
            assert(variants_alike(acc.push(d), xs, i + 1));
            acc.push(d)
        }
    }
}

pub open spec fn enum_row(d: EnumDefV) -> Seq<TokV> {
    seq![sym(Tok::Enum), TokV::Ident(d.name), sym(Tok::LBrace)] + (variants_row(d.variants, 0)
        + seq![sym(Tok::RBrace)])
}

pub open spec fn enum_alike(a: EnumDefV, b: EnumDefV) -> bool {
    &&& a.name == b.name
    &&& a.is_pub == b.is_pub
    &&& a.variants.len() == b.variants.len()
    &&& variants_alike(a.variants, b.variants, a.variants.len() as int)
}

#[verifier::rlimit(60)]
#[verifier::spinoff_prover]
proof fn lemma_enum(ts: Seq<TokenV>, p: int, d: EnumDefV)
    requires
        are_variants(d.variants),
        stands(ts, p, enum_row(d)),
    ensures
        enum_def(ts, p, d.is_pub) matches Parsed::Done(r, q) && q == p + enum_row(d).len()
            && enum_alike(r, d),
{
    let head = seq![sym(Tok::Enum), TokV::Ident(d.name), sym(Tok::LBrace)];
    let body = variants_row(d.variants, 0) + seq![sym(Tok::RBrace)];
    lemma_stands(ts, p, head, body);
    assert(ts[p + 0].kind == head[0]);
    assert(ts[p + 1].kind == head[1]);
    assert(ts[p + 2].kind == head[2]);
    let r = lemma_variants(ts, p + 3, d.variants, 0, Seq::empty());
}

// Functions.

pub open spec fn is_func(f: FunctionV) -> bool {
    are_params(f.params) && is_ty(f.ret) && are_stmts(f.body, f.body.len())
}

pub open spec fn func_row(f: FunctionV) -> Seq<TokV> {
    seq![sym(Tok::Fn), TokV::Ident(f.name), sym(Tok::LParen)] + ((params_row(f.params, 0) + seq![
        sym(Tok::RParen),
    ]) + (seq![sym(Tok::Arrow)] + (ty_row(f.ret) + braced(stmts_row(f.body, 0)))))
}

pub open spec fn func_alike(a: FunctionV, b: FunctionV) -> bool {
    &&& a.name == b.name
    &&& a.is_pub == b.is_pub
    &&& a.params.len() == b.params.len()
    &&& params_alike(a.params, b.params, a.params.len() as int)
    &&& a.ret == b.ret
    &&& bare_stmts(a.body, a.body.len()) == bare_stmts(b.body, b.body.len())
}

#[verifier::rlimit(60)]
#[verifier::spinoff_prover]
proof fn lemma_func(ts: Seq<TokenV>, p: int, f: FunctionV)
    requires
        is_func(f),
        stands(ts, p, func_row(f)),
    ensures
        function(ts, p, f.is_pub) matches Parsed::Done(r, q) && q == p + func_row(f).len()
            && func_alike(r, f),
{
    let head = seq![sym(Tok::Fn), TokV::Ident(f.name), sym(Tok::LParen)];
    let ps = params_row(f.params, 0) + seq![sym(Tok::RParen)];
    let arrow = seq![sym(Tok::Arrow)];
    let t = ty_row(f.ret);
    let b = braced(stmts_row(f.body, 0));
    lemma_stands(ts, p, head, ps + (arrow + (t + b)));
    assert(ts[p + 0].kind == head[0]);
    assert(ts[p + 1].kind == head[1]);
    assert(ts[p + 2].kind == head[2]);
    lemma_stands(ts, p + 3, ps, arrow + (t + b));
    let r = lemma_all_params(ts, p + 3, f.params, Tok::RParen, false);
    let m = p + 3 + ps.len();
    lemma_stands(ts, m, arrow, t + b);
    lemma_stands_one(ts, m, sym(Tok::Arrow));
    lemma_stands(ts, m + 1, t, b);
    types_are_read_as_they_are_written(ts, m + 1, f.ret);
    let body = lemma_block(ts, m + 1 + t.len(), f.body);
}

// Programs.

/// The rows of imports, structures, sum types and functions, each from `i` on.
pub open spec fn imports_row(xs: Seq<ImportDeclV>, i: int) -> Seq<TokV>
    decreases xs.len() - i,
{
    if !(0 <= i < xs.len()) {
        Seq::empty()
    } else {
        seq![sym(Tok::Import), TokV::Str(xs[i].path), sym(Tok::Semicolon)] + imports_row(xs, i + 1)
    }
}

pub open spec fn structs_row(xs: Seq<StructDefV>, i: int) -> Seq<TokV>
    decreases xs.len() - i,
{
    if !(0 <= i < xs.len()) {
        Seq::empty()
    } else {
        pub_row(xs[i].is_pub) + struct_row(xs[i]) + structs_row(xs, i + 1)
    }
}

pub open spec fn enums_row(xs: Seq<EnumDefV>, i: int) -> Seq<TokV>
    decreases xs.len() - i,
{
    if !(0 <= i < xs.len()) {
        Seq::empty()
    } else {
        pub_row(xs[i].is_pub) + enum_row(xs[i]) + enums_row(xs, i + 1)
    }
}

pub open spec fn funcs_row(xs: Seq<FunctionV>, i: int) -> Seq<TokV>
    decreases xs.len() - i,
{
    if !(0 <= i < xs.len()) {
        Seq::empty()
    } else {
        pub_row(xs[i].is_pub) + func_row(xs[i]) + funcs_row(xs, i + 1)
    }
}

/// The tokens of a program.
pub open spec fn program_row(g: ProgramV) -> Seq<TokV> {
    imports_row(g.imports, 0) + (structs_row(g.structs, 0) + (enums_row(g.enums, 0) + (funcs_row(
        g.funcs,
        0,
    ) + seq![sym(Tok::Eof)])))
}

/// A program that can be written.
pub open spec fn is_program(g: ProgramV) -> bool {
    &&& forall|i: int| 0 <= i < g.structs.len() ==> are_params((#[trigger] g.structs[i]).fields)
    &&& forall|i: int| 0 <= i < g.enums.len() ==> are_variants((#[trigger] g.enums[i]).variants)
    &&& forall|i: int| 0 <= i < g.funcs.len() ==> is_func(#[trigger] g.funcs[i])
}

pub open spec fn imports_alike(a: Seq<ImportDeclV>, b: Seq<ImportDeclV>, n: int) -> bool {
    n <= a.len() && n <= b.len() && forall|i: int|
        0 <= i < n ==> (#[trigger] a[i]).path == b[i].path
}

pub open spec fn structs_alike(a: Seq<StructDefV>, b: Seq<StructDefV>, n: int) -> bool {
    n <= a.len() && n <= b.len() && forall|i: int|
        0 <= i < n ==> struct_alike(#[trigger] a[i], b[i])
}

pub open spec fn enums_alike(a: Seq<EnumDefV>, b: Seq<EnumDefV>, n: int) -> bool {
    n <= a.len() && n <= b.len() && forall|i: int|
        0 <= i < n ==> enum_alike(#[trigger] a[i], b[i])
}

pub open spec fn funcs_alike(a: Seq<FunctionV>, b: Seq<FunctionV>, n: int) -> bool {
    n <= a.len() && n <= b.len() && forall|i: int|
        0 <= i < n ==> func_alike(#[trigger] a[i], b[i])
}

/// Two programs are the same, but for where their parts stand.
pub open spec fn programs_alike(a: ProgramV, b: ProgramV) -> bool {
    &&& a.imports.len() == b.imports.len()
    &&& imports_alike(a.imports, b.imports, a.imports.len() as int)
    &&& a.structs.len() == b.structs.len()
    &&& structs_alike(a.structs, b.structs, a.structs.len() as int)
    &&& a.enums.len() == b.enums.len()
    &&& enums_alike(a.enums, b.enums, a.enums.len() as int)
    &&& a.funcs.len() == b.funcs.len()
    &&& funcs_alike(a.funcs, b.funcs, a.funcs.len() as int)
}

proof fn lemma_imports(
    ts: Seq<TokenV>,
    p: int,
    xs: Seq<ImportDeclV>,
    i: int,
    acc: Seq<ImportDeclV>,
) -> (r: Seq<ImportDeclV>)
    requires
        0 <= i <= xs.len(),
        stands(ts, p, imports_row(xs, i)),
        p + imports_row(xs, i).len() < ts.len(),
        ts[p + imports_row(xs, i).len()].kind != sym(Tok::Import),
        acc.len() == i,
        imports_alike(acc, xs, i),
    ensures
        imports(ts, p, acc) == Parsed::Done(r, p + imports_row(xs, i).len()),
        r.len() == xs.len(),
        imports_alike(r, xs, xs.len() as int),
    decreases xs.len() - i,
{
    if i == xs.len() {
        acc
    } else {
        let head = seq![sym(Tok::Import), TokV::Str(xs[i].path), sym(Tok::Semicolon)];
        let rest = imports_row(xs, i + 1);
        lemma_stands(ts, p, head, rest);
        assert(ts[p + 0].kind == head[0]);
        assert(ts[p + 1].kind == head[1]);
        assert(ts[p + 2].kind == head[2]);
        let d = import(ts, p)->Done_0;
        assert(import(ts, p) == Parsed::Done(d, p + 3));
        assert(imports_alike(acc.push(d), xs, i + 1));
        lemma_imports(ts, p + 3, xs, i + 1, acc.push(d))
    }
}

/// The program that the definitions from `p` on make.
#[verifier::opaque]
spec fn rest_of(ts: Seq<TokenV>, p: int, acc: ProgramV) -> Result<
    ProgramV,
    crate::diagnostics::DiagV,
> {
    definitions(ts, p, acc)
}

/// A definition, and what follows it.
proof fn lemma_define(
    ts: Seq<TokenV>,
    p: int,
    is_pub: bool,
    acc: ProgramV,
    next: ProgramV,
    q: int,
)
    requires
        0 <= p < ts.len(),
        p < q,
        is_pub == at(ts, p, Tok::Pub),
        !at(ts, p, Tok::Eof),
        definition(
            ts,
            if is_pub {
                p + 1
            } else {
                p
            },
            is_pub,
            acc,
        ) == Parsed::Done(next, q),
    ensures
        rest_of(ts, p, acc) == rest_of(ts, q, next),
{
    reveal(rest_of);
}

#[verifier::rlimit(60)]
#[verifier::spinoff_prover]
proof fn lemma_struct_at(ts: Seq<TokenV>, m: int, d: StructDefV, acc: ProgramV) -> (made: StructDefV)
    requires
        are_params(d.fields),
        stands(ts, m, struct_row(d)),
    ensures
        definition(ts, m, d.is_pub, acc) == Parsed::Done(
            ProgramV { structs: acc.structs.push(made), ..acc },
            m + struct_row(d).len(),
        ),
        struct_alike(made, d),
        ts[m].kind == sym(Tok::Struct),
        0 <= m < ts.len(),
{
    let row = struct_row(d);
    assert(row[0] == sym(Tok::Struct));
    assert(ts[m + 0].kind == row[0]);
    lemma_struct(ts, m, d);
    struct_def(ts, m, d.is_pub)->Done_0
}

proof fn lemma_struct_step(ts: Seq<TokenV>, p: int, d: StructDefV, acc: ProgramV) -> (made: StructDefV)
    requires
        are_params(d.fields),
        stands(ts, p, pub_row(d.is_pub) + struct_row(d)),
    ensures
        rest_of(ts, p, acc) == rest_of(
            ts,
            p + pub_row(d.is_pub).len() + struct_row(d).len(),
            ProgramV { structs: acc.structs.push(made), ..acc },
        ),
        struct_alike(made, d),
{
    let front = pub_row(d.is_pub);
    lemma_stands(ts, p, front, struct_row(d));
    let m = p + front.len();
    let made = lemma_struct_at(ts, m, d, acc);
    if d.is_pub {
        lemma_stands_one(ts, p, sym(Tok::Pub));
    }
    let next = ProgramV { structs: acc.structs.push(made), ..acc };
    lemma_define(ts, p, d.is_pub, acc, next, m + struct_row(d).len());
    made
}

#[verifier::opaque]
spec fn same_struct(a: StructDefV, b: StructDefV) -> bool {
    struct_alike(a, b)
}

proof fn lemma_structs(
    ts: Seq<TokenV>,
    p: int,
    xs: Seq<StructDefV>,
    i: int,
    acc: ProgramV,
) -> (r: ProgramV)
    requires
        forall|k: int| 0 <= k < xs.len() ==> are_params((#[trigger] xs[k]).fields),
        0 <= i <= xs.len(),
        stands(ts, p, structs_row(xs, i)),
        acc.structs.len() == i,
        forall|k: int| 0 <= k < i ==> same_struct(#[trigger] acc.structs[k], xs[k]),
    ensures
        rest_of(ts, p, acc) == rest_of(ts, p + structs_row(xs, i).len(), r),
        r.structs.len() == xs.len(),
        forall|k: int| 0 <= k < xs.len() ==> same_struct(#[trigger] r.structs[k], xs[k]),
        r == (ProgramV { structs: r.structs, ..acc }),
    decreases xs.len() - i,
{
    if i == xs.len() {
        acc
    } else {
        let d = xs[i];
        let row = pub_row(d.is_pub) + struct_row(d);
        let rest = structs_row(xs, i + 1);
        assert(structs_row(xs, i) == row + rest);
        lemma_stands(ts, p, row, rest);
        let made = lemma_struct_step(ts, p, d, acc);
        assert(same_struct(made, d)) by {
            reveal(same_struct);
        }
        let next = ProgramV { structs: acc.structs.push(made), ..acc };
        lemma_structs(ts, p + row.len(), xs, i + 1, next)
    }
}

#[verifier::rlimit(60)]
#[verifier::spinoff_prover]
proof fn lemma_enum_at(ts: Seq<TokenV>, m: int, d: EnumDefV, acc: ProgramV) -> (made: EnumDefV)
    requires
        are_variants(d.variants),
        stands(ts, m, enum_row(d)),
    ensures
        definition(ts, m, d.is_pub, acc) == Parsed::Done(
            ProgramV { enums: acc.enums.push(made), ..acc },
            m + enum_row(d).len(),
        ),
        enum_alike(made, d),
        ts[m].kind == sym(Tok::Enum),
        0 <= m < ts.len(),
{
    let row = enum_row(d);
    assert(row[0] == sym(Tok::Enum));
    assert(ts[m + 0].kind == row[0]);
    lemma_enum(ts, m, d);
    enum_def(ts, m, d.is_pub)->Done_0
}

proof fn lemma_enum_step(ts: Seq<TokenV>, p: int, d: EnumDefV, acc: ProgramV) -> (made: EnumDefV)
    requires
        are_variants(d.variants),
        stands(ts, p, pub_row(d.is_pub) + enum_row(d)),
    ensures
        rest_of(ts, p, acc) == rest_of(
            ts,
            p + pub_row(d.is_pub).len() + enum_row(d).len(),
            ProgramV { enums: acc.enums.push(made), ..acc },
        ),
        enum_alike(made, d),
{
    let front = pub_row(d.is_pub);
    lemma_stands(ts, p, front, enum_row(d));
    let m = p + front.len();
    let made = lemma_enum_at(ts, m, d, acc);
    if d.is_pub {
        lemma_stands_one(ts, p, sym(Tok::Pub));
    }
    let next = ProgramV { enums: acc.enums.push(made), ..acc };
    lemma_define(ts, p, d.is_pub, acc, next, m + enum_row(d).len());
    made
}

#[verifier::opaque]
spec fn same_enum(a: EnumDefV, b: EnumDefV) -> bool {
    enum_alike(a, b)
}

proof fn lemma_enums(
    ts: Seq<TokenV>,
    p: int,
    xs: Seq<EnumDefV>,
    i: int,
    acc: ProgramV,
) -> (r: ProgramV)
    requires
        forall|k: int| 0 <= k < xs.len() ==> are_variants((#[trigger] xs[k]).variants),
        0 <= i <= xs.len(),
        stands(ts, p, enums_row(xs, i)),
        acc.enums.len() == i,
        forall|k: int| 0 <= k < i ==> same_enum(#[trigger] acc.enums[k], xs[k]),
    ensures
        rest_of(ts, p, acc) == rest_of(ts, p + enums_row(xs, i).len(), r),
        r.enums.len() == xs.len(),
        forall|k: int| 0 <= k < xs.len() ==> same_enum(#[trigger] r.enums[k], xs[k]),
        r == (ProgramV { enums: r.enums, ..acc }),
    decreases xs.len() - i,
{
    if i == xs.len() {
        acc
    } else {
        let d = xs[i];
        let row = pub_row(d.is_pub) + enum_row(d);
        let rest = enums_row(xs, i + 1);
        assert(enums_row(xs, i) == row + rest);
        lemma_stands(ts, p, row, rest);
        let made = lemma_enum_step(ts, p, d, acc);
        assert(same_enum(made, d)) by {
            reveal(same_enum);
        }
        let next = ProgramV { enums: acc.enums.push(made), ..acc };
        lemma_enums(ts, p + row.len(), xs, i + 1, next)
    }
}

#[verifier::rlimit(60)]
#[verifier::spinoff_prover]
proof fn lemma_func_at(ts: Seq<TokenV>, m: int, d: FunctionV, acc: ProgramV) -> (made: FunctionV)
    requires
        is_func(d),
        stands(ts, m, func_row(d)),
    ensures
        definition(ts, m, d.is_pub, acc) == Parsed::Done(
            ProgramV { funcs: acc.funcs.push(made), ..acc },
            m + func_row(d).len(),
        ),
        func_alike(made, d),
        ts[m].kind == sym(Tok::Fn),
        0 <= m < ts.len(),
{
    let row = func_row(d);
    assert(row[0] == sym(Tok::Fn));
    assert(ts[m + 0].kind == row[0]);
    lemma_func(ts, m, d);
    function(ts, m, d.is_pub)->Done_0
}

proof fn lemma_func_step(ts: Seq<TokenV>, p: int, d: FunctionV, acc: ProgramV) -> (made: FunctionV)
    requires
        is_func(d),
        stands(ts, p, pub_row(d.is_pub) + func_row(d)),
    ensures
        rest_of(ts, p, acc) == rest_of(
            ts,
            p + pub_row(d.is_pub).len() + func_row(d).len(),
            ProgramV { funcs: acc.funcs.push(made), ..acc },
        ),
        func_alike(made, d),
{
    let front = pub_row(d.is_pub);
    lemma_stands(ts, p, front, func_row(d));
    let m = p + front.len();
    let made = lemma_func_at(ts, m, d, acc);
    if d.is_pub {
        lemma_stands_one(ts, p, sym(Tok::Pub));
    }
    let next = ProgramV { funcs: acc.funcs.push(made), ..acc };
    lemma_define(ts, p, d.is_pub, acc, next, m + func_row(d).len());
    made
}

#[verifier::opaque]
spec fn same_func(a: FunctionV, b: FunctionV) -> bool {
    func_alike(a, b)
}

proof fn lemma_funcs(
    ts: Seq<TokenV>,
    p: int,
    xs: Seq<FunctionV>,
    i: int,
    acc: ProgramV,
) -> (r: ProgramV)
    requires
        forall|k: int| 0 <= k < xs.len() ==> is_func(#[trigger] xs[k]),
        0 <= i <= xs.len(),
        stands(ts, p, funcs_row(xs, i)),
        acc.funcs.len() == i,
        forall|k: int| 0 <= k < i ==> same_func(#[trigger] acc.funcs[k], xs[k]),
    ensures
        rest_of(ts, p, acc) == rest_of(ts, p + funcs_row(xs, i).len(), r),
        r.funcs.len() == xs.len(),
        forall|k: int| 0 <= k < xs.len() ==> same_func(#[trigger] r.funcs[k], xs[k]),
        r == (ProgramV { funcs: r.funcs, ..acc }),
    decreases xs.len() - i,
{
    if i == xs.len() {
        acc
    } else {
        let d = xs[i];
        let row = pub_row(d.is_pub) + func_row(d);
        let rest = funcs_row(xs, i + 1);
        assert(funcs_row(xs, i) == row + rest);
        lemma_stands(ts, p, row, rest);
        let made = lemma_func_step(ts, p, d, acc);
        assert(same_func(made, d)) by {
            reveal(same_func);
        }
        let next = ProgramV { funcs: acc.funcs.push(made), ..acc };
        lemma_funcs(ts, p + row.len(), xs, i + 1, next)
    }
}

/// What follows the imports starts with no `import`.
proof fn lemma_after_imports(g: ProgramV)
    ensures
        ({
            let rest = structs_row(g.structs, 0) + (enums_row(g.enums, 0) + (funcs_row(g.funcs, 0)
                + seq![sym(Tok::Eof)]));
            rest.len() > 0 && rest[0] != sym(Tok::Import)
        }),
{
    let f = funcs_row(g.funcs, 0) + seq![sym(Tok::Eof)];
    let e = enums_row(g.enums, 0) + f;
    let s = structs_row(g.structs, 0) + e;
    if g.funcs.len() > 0 {
        let d = g.funcs[0];
        let row = pub_row(d.is_pub) + func_row(d);
        assert(row[0] == (if d.is_pub {
            sym(Tok::Pub)
        } else {
            sym(Tok::Fn)
        }));
        assert(funcs_row(g.funcs, 0)[0] == row[0]);
        assert(f[0] == row[0]);
    } else {
        assert(f =~= seq![sym(Tok::Eof)]);
    }
    if g.enums.len() > 0 {
        let d = g.enums[0];
        let row = pub_row(d.is_pub) + enum_row(d);
        assert(row[0] == (if d.is_pub {
            sym(Tok::Pub)
        } else {
            sym(Tok::Enum)
        }));
        assert(enums_row(g.enums, 0)[0] == row[0]);
        assert(e[0] == row[0]);
    } else {
        assert(e =~= f);
    }
    if g.structs.len() > 0 {
        let d = g.structs[0];
        let row = pub_row(d.is_pub) + struct_row(d);
        assert(row[0] == (if d.is_pub {
            sym(Tok::Pub)
        } else {
            sym(Tok::Struct)
        }));
        assert(structs_row(g.structs, 0)[0] == row[0]);
        assert(s[0] == row[0]);
    } else {
        assert(s =~= e);
    }
}

/// Programs are read as they are written: from the tokens of a program the grammar makes that
/// program again, with all its imports, structures, sum types and functions, but for where
/// its parts stand.
pub proof fn programs_are_read_as_they_are_written(ts: Seq<TokenV>, g: ProgramV)
    requires
        is_program(g),
        stands(ts, 0, program_row(g)),
    ensures
        program(ts) matches Ok(r) && programs_alike(r, g),
{
    let f = funcs_row(g.funcs, 0);
    let eof = seq![sym(Tok::Eof)];
    let e = enums_row(g.enums, 0);
    let s = structs_row(g.structs, 0);
    let i = imports_row(g.imports, 0);
    let rest = s + (e + (f + eof));
    lemma_stands(ts, 0, i, rest);
    lemma_after_imports(g);
    let p1 = i.len() as int;
    assert(ts[p1 + 0].kind == rest[0]);
    let a = lemma_imports(ts, 0, g.imports, 0, Seq::empty());
    let start = ProgramV {
        imports: a,
        structs: Seq::empty(),
        enums: Seq::empty(),
        funcs: Seq::empty(),
    };
    assert(program(ts) == rest_of(ts, p1, start)) by {
        reveal(rest_of);
    }
    lemma_stands(ts, p1, s, e + (f + eof));
    let b = lemma_structs(ts, p1, g.structs, 0, start);
    let p2 = p1 + s.len();
    lemma_stands(ts, p2, e, f + eof);
    let c = lemma_enums(ts, p2, g.enums, 0, b);
    let p3 = p2 + e.len();
    lemma_stands(ts, p3, f, eof);
    let d = lemma_funcs(ts, p3, g.funcs, 0, c);
    let p4 = p3 + f.len();
    lemma_stands_one(ts, p4, sym(Tok::Eof));
    assert(rest_of(ts, p4, d) == Ok::<ProgramV, crate::diagnostics::DiagV>(d)) by {
        reveal(rest_of);
    }
    assert(programs_alike(d, g)) by {
        reveal(same_struct);
        reveal(same_enum);
        reveal(same_func);
    }
}

} // verus!
