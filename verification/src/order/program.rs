//! Whether a program is accepted, from its definitions one by one.
use vstd::prelude::*;
#[allow(unused_imports)]
use crate::ast::{EnumVariantV, ProgramV};
#[allow(unused_imports)]
use crate::order::alike::{alike, lemma_func, lemma_params_valid, lemma_valid, lemma_variants_valid};
#[allow(unused_imports)]
use crate::order::names::{
    at_home, enum_first, enums_apart, func_first, funcs_apart, has_variant, lemma_back, lemma_enums,
    lemma_enums_apart, lemma_funcs, lemma_funcs_apart, lemma_structs, lemma_structs_apart,
    lemma_variant_index, lemma_variants, lemma_variants_apart, reordered, struct_first,
    structs_apart, variants_apart,
};
#[allow(unused_imports)]
use crate::typing::{
    bodies_ok, checked, enum_named, enums_ok, fields_distinct, fields_valid, func_named, func_ok,
    funcs_ok, is_reserved, params_valid, payloads_valid, struct_named, structs_ok, valid_type,
    variant_home, variant_index, variant_named, variants_ok, variants_valid,
};

verus! {

// What each definition is to be, apart from its place.

pub open spec fn struct_fine(p: ProgramV, k: int) -> bool {
    let s = p.structs[k];
    !is_reserved(s.name) && struct_first(p, k) && fields_distinct(s.fields, 0) is Ok
}

proof fn lemma_structs_ok(p: ProgramV, i: int)
    requires
        0 <= i <= p.structs.len(),
    ensures
        structs_ok(p, i) is Ok <==> forall|k: int|
            i <= k < p.structs.len() ==> #[trigger] struct_fine(p, k),
    decreases p.structs.len() - i,
{
    if i < p.structs.len() {
        lemma_structs_ok(p, i + 1);
        assert(structs_ok(p, i) is Ok <==> struct_fine(p, i) && structs_ok(p, i + 1) is Ok);
    }
}

pub open spec fn variant_fine(p: ProgramV, i: int, j: int) -> bool {
    let vs = p.enums[i].variants;
    &&& !is_reserved(vs[j].name)
    &&& variant_index(vs, vs[j].name, 0) >= j
    &&& variant_home(p, vs[j].name, 0) >= i
}

proof fn lemma_variants_ok(p: ProgramV, i: int, j: int)
    requires
        0 <= j <= p.enums[i].variants.len(),
    ensures
        variants_ok(p, i, j) is Ok <==> forall|k: int|
            j <= k < p.enums[i].variants.len() ==> #[trigger] variant_fine(p, i, k),
    decreases p.enums[i].variants.len() - j,
{
    if j < p.enums[i].variants.len() {
        lemma_variants_ok(p, i, j + 1);
        assert(variants_ok(p, i, j) is Ok <==> variant_fine(p, i, j) && variants_ok(p, i, j + 1)
            is Ok);
    }
}

pub open spec fn enum_fine(p: ProgramV, k: int) -> bool {
    let e = p.enums[k];
    &&& !is_reserved(e.name)
    &&& struct_named(p, e.name) is None
    &&& enum_first(p, k)
    &&& variants_ok(p, k, 0) is Ok
}

proof fn lemma_enums_ok(p: ProgramV, i: int)
    requires
        0 <= i <= p.enums.len(),
    ensures
        enums_ok(p, i) is Ok <==> forall|k: int|
            i <= k < p.enums.len() ==> #[trigger] enum_fine(p, k),
    decreases p.enums.len() - i,
{
    if i < p.enums.len() {
        lemma_enums_ok(p, i + 1);
        assert(enums_ok(p, i) is Ok <==> enum_fine(p, i) && enums_ok(p, i + 1) is Ok);
    }
}

pub open spec fn fields_fine(p: ProgramV, k: int) -> bool {
    params_valid(p, p.structs[k].fields, 0) is Ok
}

proof fn lemma_fields_valid(p: ProgramV, i: int)
    requires
        0 <= i <= p.structs.len(),
    ensures
        fields_valid(p, i) is Ok <==> forall|k: int|
            i <= k < p.structs.len() ==> #[trigger] fields_fine(p, k),
    decreases p.structs.len() - i,
{
    if i < p.structs.len() {
        lemma_fields_valid(p, i + 1);
        assert(fields_valid(p, i) is Ok <==> fields_fine(p, i) && fields_valid(p, i + 1) is Ok);
    }
}

pub open spec fn payload_fine(p: ProgramV, k: int) -> bool {
    variants_valid(p, p.enums[k].variants, 0) is Ok
}

proof fn lemma_payloads_valid(p: ProgramV, i: int)
    requires
        0 <= i <= p.enums.len(),
    ensures
        payloads_valid(p, i) is Ok <==> forall|k: int|
            i <= k < p.enums.len() ==> #[trigger] payload_fine(p, k),
    decreases p.enums.len() - i,
{
    if i < p.enums.len() {
        lemma_payloads_valid(p, i + 1);
        assert(payloads_valid(p, i) is Ok <==> payload_fine(p, i) && payloads_valid(p, i + 1)
            is Ok);
    }
}

pub open spec fn func_fine(p: ProgramV, k: int) -> bool {
    let f = p.funcs[k];
    &&& !is_reserved(f.name)
    &&& struct_named(p, f.name) is None
    &&& enum_named(p, f.name) is None
    &&& variant_named(p, f.name) is None
    &&& func_first(p, k)
    &&& params_valid(p, f.params, 0) is Ok
    &&& valid_type(p, f.ret, f.span) is Ok
}

proof fn lemma_funcs_ok(p: ProgramV, i: int)
    requires
        0 <= i <= p.funcs.len(),
    ensures
        funcs_ok(p, i) is Ok <==> forall|k: int|
            i <= k < p.funcs.len() ==> #[trigger] func_fine(p, k),
    decreases p.funcs.len() - i,
{
    if i < p.funcs.len() {
        lemma_funcs_ok(p, i + 1);
        assert(funcs_ok(p, i) is Ok <==> func_fine(p, i) && funcs_ok(p, i + 1) is Ok);
    }
}

pub open spec fn body_fine(p: ProgramV, k: int) -> bool {
    func_ok(p, p.funcs[k]) is Ok
}

proof fn lemma_bodies_ok(p: ProgramV, i: int)
    requires
        0 <= i <= p.funcs.len(),
    ensures
        bodies_ok(p, i) is Ok <==> forall|k: int|
            i <= k < p.funcs.len() ==> #[trigger] body_fine(p, k),
    decreases p.funcs.len() - i,
{
    if i < p.funcs.len() {
        lemma_bodies_ok(p, i + 1);
        assert(bodies_ok(p, i) is Ok <==> body_fine(p, i) && bodies_ok(p, i + 1) is Ok);
    }
}

/// Every definition is as it is to be.
pub open spec fn all_fine(p: ProgramV) -> bool {
    &&& forall|k: int| 0 <= k < p.structs.len() ==> #[trigger] struct_fine(p, k)
    &&& forall|k: int| 0 <= k < p.enums.len() ==> #[trigger] enum_fine(p, k)
    &&& forall|k: int| 0 <= k < p.structs.len() ==> #[trigger] fields_fine(p, k)
    &&& forall|k: int| 0 <= k < p.enums.len() ==> #[trigger] payload_fine(p, k)
    &&& forall|k: int| 0 <= k < p.funcs.len() ==> #[trigger] func_fine(p, k)
    &&& func_named(p, "main"@) is Some
    &&& forall|k: int| 0 <= k < p.funcs.len() ==> #[trigger] body_fine(p, k)
}

proof fn lemma_checked(p: ProgramV)
    ensures
        checked(p) is Ok <==> all_fine(p),
{
    lemma_structs_ok(p, 0);
    lemma_enums_ok(p, 0);
    lemma_fields_valid(p, 0);
    lemma_payloads_valid(p, 0);
    lemma_funcs_ok(p, 0);
    lemma_bodies_ok(p, 0);
}

/// The variants of a sum type that is as it is to be stand in none before it.
proof fn lemma_at_home(p: ProgramV, k: int)
    requires
        0 <= k < p.enums.len(),
        variants_ok(p, k, 0) is Ok,
    ensures
        at_home(p, k),
{
    let vs = p.enums[k].variants;
    lemma_variants_ok(p, k, 0);
    assert forall|n: Seq<char>| #[trigger] has_variant(p.enums[k], n) implies variant_home(p, n, 0)
        >= k by {
        lemma_found(vs, n, 0);
        assert(variant_fine(p, k, variant_index(vs, n, 0)));
    }
}

proof fn lemma_found(vs: Seq<EnumVariantV>, n: Seq<char>, i: int)
    requires
        0 <= i <= vs.len(),
    ensures
        i <= variant_index(vs, n, i) <= vs.len(),
        variant_index(vs, n, i) < vs.len() ==> vs[variant_index(vs, n, i)].name == n,
    decreases vs.len() - i,
{
    if i < vs.len() && vs[i].name != n {
        lemma_found(vs, n, i + 1);
    }
}

/// Where the definitions of a program stand in another order.
pub ghost struct Shuffle {
    pub structs: (Seq<int>, Seq<int>),
    pub enums: (Seq<int>, Seq<int>),
    pub funcs: (Seq<int>, Seq<int>),
}

/// `q` has the definitions of `p`, in another order.
pub open spec fn shuffled(p: ProgramV, q: ProgramV, s: Shuffle) -> bool {
    &&& reordered(p.structs, q.structs, s.structs.0, s.structs.1)
    &&& reordered(p.enums, q.enums, s.enums.0, s.enums.1)
    &&& reordered(p.funcs, q.funcs, s.funcs.0, s.funcs.1)
}

/// No two definitions of an accepted program have one name.
proof fn lemma_apart(p: ProgramV)
    requires
        all_fine(p),
    ensures
        structs_apart(p),
        enums_apart(p),
        variants_apart(p),
        funcs_apart(p),
{
    lemma_structs_apart(p);
    lemma_enums_apart(p);
    lemma_variants_apart(p);
    lemma_funcs_apart(p);
    assert forall|i: int| 0 <= i < p.structs.len() implies #[trigger] struct_first(p, i) by {
        assert(struct_fine(p, i));
    }
    assert forall|i: int| 0 <= i < p.enums.len() implies #[trigger] enum_first(p, i) by {
        assert(enum_fine(p, i));
    }
    assert forall|i: int| 0 <= i < p.enums.len() implies #[trigger] at_home(p, i) by {
        assert(enum_fine(p, i));
        lemma_at_home(p, i);
    }
    assert forall|i: int| 0 <= i < p.funcs.len() implies #[trigger] func_first(p, i) by {
        assert(func_fine(p, i));
    }
}

/// A sum type is as it is to be in both programs.
proof fn lemma_enum_moved(p: ProgramV, q: ProgramV, j: int, k: int)
    requires
        0 <= j < p.enums.len(),
        0 <= k < q.enums.len(),
        q.enums[k] == p.enums[j],
        enum_fine(p, j),
        enum_first(q, k),
        at_home(q, k),
        alike(p, q),
    ensures
        enum_fine(q, k),
{
    reveal(alike);
    let vs = p.enums[j].variants;
    lemma_variants_ok(p, j, 0);
    lemma_variants_ok(q, k, 0);
    assert(struct_named(p, p.enums[j].name) == struct_named(q, p.enums[j].name));
    assert forall|m: int| 0 <= m < vs.len() implies #[trigger] variant_fine(q, k, m) by {
        assert(variant_fine(p, j, m));
        lemma_variant_index(vs, m, 0);
        assert(has_variant(q.enums[k], vs[m].name));
    }
}

/// What is accepted is accepted in another order.
proof fn lemma_shuffled(p: ProgramV, q: ProgramV, s: Shuffle)
    requires
        shuffled(p, q, s),
        all_fine(p),
    ensures
        all_fine(q),
{
    lemma_apart(p);
    lemma_structs(p, q, s.structs.0, s.structs.1);
    lemma_enums(p, q, s.enums.0, s.enums.1);
    lemma_variants(p, q, s.enums.0, s.enums.1);
    lemma_funcs(p, q, s.funcs.0, s.funcs.1);
    lemma_structs_apart(q);
    lemma_enums_apart(q);
    lemma_variants_apart(q);
    lemma_funcs_apart(q);
    assert(alike(p, q)) by {
        reveal(alike);
    }
    assert forall|k: int| 0 <= k < q.structs.len() implies #[trigger] struct_fine(q, k)
        && fields_fine(q, k) by {
        let j = s.structs.0[k];
        assert(q.structs[k] == p.structs[j]);
        assert(struct_fine(p, j) && fields_fine(p, j));
        assert(struct_first(q, k));
        lemma_params_valid(p, q, q.structs[k].fields, 0);
    }
    assert forall|k: int| 0 <= k < q.structs.len() implies #[trigger] fields_fine(q, k) by {
        assert(struct_fine(q, k));
    }
    assert forall|k: int| 0 <= k < q.enums.len() implies #[trigger] enum_fine(q, k)
        && payload_fine(q, k) by {
        let j = s.enums.0[k];
        assert(q.enums[k] == p.enums[j]);
        assert(enum_fine(p, j) && payload_fine(p, j));
        assert(enum_first(q, k) && at_home(q, k));
        lemma_enum_moved(p, q, j, k);
        lemma_variants_valid(p, q, q.enums[k].variants, 0);
    }
    assert forall|k: int| 0 <= k < q.enums.len() implies #[trigger] payload_fine(q, k) by {
        assert(enum_fine(q, k));
    }
    assert forall|k: int| 0 <= k < q.funcs.len() implies #[trigger] func_fine(q, k) && body_fine(
        q,
        k,
    ) by {
        let j = s.funcs.0[k];
        let f = q.funcs[k];
        assert(f == p.funcs[j]);
        assert(func_fine(p, j) && body_fine(p, j));
        assert(func_first(q, k));
        assert(struct_named(p, f.name) == struct_named(q, f.name));
        assert(enum_named(p, f.name) == enum_named(q, f.name));
        assert(variant_named(p, f.name) == variant_named(q, f.name));
        lemma_params_valid(p, q, f.params, 0);
        lemma_valid(p, q, f.ret, f.span);
        lemma_func(p, q, f);
    }
    assert forall|k: int| 0 <= k < q.funcs.len() implies #[trigger] body_fine(q, k) by {
        assert(func_fine(q, k));
    }
    assert(func_named(p, "main"@) == func_named(q, "main"@));
}

/// The order of the definitions does not change whether a program is accepted.
pub proof fn order_does_not_matter(p: ProgramV, q: ProgramV, s: Shuffle)
    requires
        shuffled(p, q, s),
    ensures
        checked(p) is Ok <==> checked(q) is Ok,
{
    lemma_checked(p);
    lemma_checked(q);
    if all_fine(p) {
        lemma_shuffled(p, q, s);
    }
    if all_fine(q) {
        let back = Shuffle {
            structs: (s.structs.1, s.structs.0),
            enums: (s.enums.1, s.enums.0),
            funcs: (s.funcs.1, s.funcs.0),
        };
        lemma_back(p.structs, q.structs, s.structs.0, s.structs.1);
        lemma_back(p.enums, q.enums, s.enums.0, s.enums.1);
        lemma_back(p.funcs, q.funcs, s.funcs.0, s.funcs.1);
        lemma_shuffled(q, p, back);
    }
}

} // verus!
