//! What names mean where definitions stand in another order.
use vstd::prelude::*;
#[allow(unused_imports)]
use crate::ast::{EnumDefV, EnumVariantV, ProgramV};
#[allow(unused_imports)]
use crate::typing::{
    enum_index, enum_named, func_index, func_named, struct_index, struct_named, variant_home,
    variant_index, variant_named,
};

verus! {

/// `b` holds what `a` holds, in another order: `f` says where in `a` each stands, and `g`
/// where in `b`.
pub open spec fn reordered<T>(a: Seq<T>, b: Seq<T>, f: Seq<int>, g: Seq<int>) -> bool {
    &&& b.len() == a.len()
    &&& f.len() == a.len()
    &&& g.len() == a.len()
    &&& forall|i: int|
        0 <= i < b.len() ==> 0 <= #[trigger] f[i] < a.len() && b[i] == a[f[i]] && g[f[i]] == i
    &&& forall|i: int| 0 <= i < a.len() ==> 0 <= #[trigger] g[i] < b.len() && f[g[i]] == i
}

/// The other way round.
pub proof fn lemma_back<T>(a: Seq<T>, b: Seq<T>, f: Seq<int>, g: Seq<int>)
    requires
        reordered(a, b, f, g),
    ensures
        reordered(b, a, g, f),
{
    assert forall|i: int| 0 <= i < a.len() implies 0 <= #[trigger] g[i] < b.len() && a[i] == b[g[i]]
        && f[g[i]] == i by {
        assert(b[g[i]] == a[f[g[i]]]);
    }
}

/// Each stands in `b` too.
proof fn lemma_there<T>(a: Seq<T>, b: Seq<T>, f: Seq<int>, g: Seq<int>, i: int)
    requires
        reordered(a, b, f, g),
        0 <= i < a.len(),
    ensures
        0 <= g[i] < b.len(),
        b[g[i]] == a[i],
{
    assert(b[g[i]] == a[f[g[i]]]);
}

// Structures.

proof fn lemma_struct_index(p: ProgramV, n: Seq<char>, i: int)
    requires
        0 <= i <= p.structs.len(),
    ensures
        i <= struct_index(p, n, i) <= p.structs.len(),
        struct_index(p, n, i) < p.structs.len() ==> p.structs[struct_index(p, n, i)].name == n,
        forall|j: int| i <= j < struct_index(p, n, i) ==> (#[trigger] p.structs[j]).name != n,
    decreases p.structs.len() - i,
{
    if i < p.structs.len() && p.structs[i].name != n {
        lemma_struct_index(p, n, i + 1);
    }
}

/// No two structures have one name.
pub open spec fn structs_apart(p: ProgramV) -> bool {
    forall|i: int, j: int|
        0 <= i < j < p.structs.len() ==> (#[trigger] p.structs[i]).name != (
        #[trigger] p.structs[j]).name
}

/// A structure is the first of its name.
pub open spec fn struct_first(p: ProgramV, i: int) -> bool {
    struct_index(p, p.structs[i].name, 0) >= i
}

pub proof fn lemma_structs_apart(p: ProgramV)
    ensures
        structs_apart(p) <==> forall|i: int|
            0 <= i < p.structs.len() ==> #[trigger] struct_first(p, i),
{
    assert forall|i: int| 0 <= i < p.structs.len() && structs_apart(p) implies #[trigger] struct_first(
        p,
        i,
    ) by {
        lemma_struct_index(p, p.structs[i].name, 0);
    }
    if forall|i: int| 0 <= i < p.structs.len() ==> #[trigger] struct_first(p, i) {
        assert forall|i: int, j: int| 0 <= i < j < p.structs.len() implies (
        #[trigger] p.structs[i]).name != (#[trigger] p.structs[j]).name by {
            assert(struct_first(p, j));
            lemma_struct_index(p, p.structs[j].name, 0);
        }
    }
}

proof fn lemma_struct_named(p: ProgramV, i: int)
    requires
        structs_apart(p),
        0 <= i < p.structs.len(),
    ensures
        struct_named(p, p.structs[i].name) == Some(p.structs[i]),
{
    lemma_struct_index(p, p.structs[i].name, 0);
}

pub proof fn lemma_structs(p: ProgramV, q: ProgramV, f: Seq<int>, g: Seq<int>)
    requires
        reordered(p.structs, q.structs, f, g),
        structs_apart(p),
    ensures
        structs_apart(q),
        forall|n: Seq<char>| #[trigger] struct_named(p, n) == struct_named(q, n),
{
    assert forall|i: int, j: int| 0 <= i < j < q.structs.len() implies (
    #[trigger] q.structs[i]).name != (#[trigger] q.structs[j]).name by {
        assert(g[f[i]] == i && g[f[j]] == j);
    }
    assert forall|n: Seq<char>| #[trigger] struct_named(p, n) == struct_named(q, n) by {
        let k = struct_index(p, n, 0);
        let m = struct_index(q, n, 0);
        lemma_struct_index(p, n, 0);
        lemma_struct_index(q, n, 0);
        if k < p.structs.len() {
            lemma_there(p.structs, q.structs, f, g, k);
            lemma_struct_named(q, g[k]);
        } else if m < q.structs.len() {
            assert(q.structs[m] == p.structs[f[m]]);
        }
    }
}

// Functions.

proof fn lemma_func_index(p: ProgramV, n: Seq<char>, i: int)
    requires
        0 <= i <= p.funcs.len(),
    ensures
        i <= func_index(p, n, i) <= p.funcs.len(),
        func_index(p, n, i) < p.funcs.len() ==> p.funcs[func_index(p, n, i)].name == n,
        forall|j: int| i <= j < func_index(p, n, i) ==> (#[trigger] p.funcs[j]).name != n,
    decreases p.funcs.len() - i,
{
    if i < p.funcs.len() && p.funcs[i].name != n {
        lemma_func_index(p, n, i + 1);
    }
}

/// No two functions have one name.
pub open spec fn funcs_apart(p: ProgramV) -> bool {
    forall|i: int, j: int|
        0 <= i < j < p.funcs.len() ==> (#[trigger] p.funcs[i]).name != (#[trigger] p.funcs[j]).name
}

/// A function is the first of its name.
pub open spec fn func_first(p: ProgramV, i: int) -> bool {
    func_index(p, p.funcs[i].name, 0) >= i
}

pub proof fn lemma_funcs_apart(p: ProgramV)
    ensures
        funcs_apart(p) <==> forall|i: int|
            0 <= i < p.funcs.len() ==> #[trigger] func_first(p, i),
{
    assert forall|i: int| 0 <= i < p.funcs.len() && funcs_apart(p) implies #[trigger] func_first(
        p,
        i,
    ) by {
        lemma_func_index(p, p.funcs[i].name, 0);
    }
    if forall|i: int| 0 <= i < p.funcs.len() ==> #[trigger] func_first(p, i) {
        assert forall|i: int, j: int| 0 <= i < j < p.funcs.len() implies (
        #[trigger] p.funcs[i]).name != (#[trigger] p.funcs[j]).name by {
            assert(func_first(p, j));
            lemma_func_index(p, p.funcs[j].name, 0);
        }
    }
}

proof fn lemma_func_named(p: ProgramV, i: int)
    requires
        funcs_apart(p),
        0 <= i < p.funcs.len(),
    ensures
        func_named(p, p.funcs[i].name) == Some(p.funcs[i]),
{
    lemma_func_index(p, p.funcs[i].name, 0);
}

pub proof fn lemma_funcs(p: ProgramV, q: ProgramV, f: Seq<int>, g: Seq<int>)
    requires
        reordered(p.funcs, q.funcs, f, g),
        funcs_apart(p),
    ensures
        funcs_apart(q),
        forall|n: Seq<char>| #[trigger] func_named(p, n) == func_named(q, n),
{
    assert forall|i: int, j: int| 0 <= i < j < q.funcs.len() implies (#[trigger] q.funcs[i]).name
        != (#[trigger] q.funcs[j]).name by {
        assert(g[f[i]] == i && g[f[j]] == j);
    }
    assert forall|n: Seq<char>| #[trigger] func_named(p, n) == func_named(q, n) by {
        let k = func_index(p, n, 0);
        let m = func_index(q, n, 0);
        lemma_func_index(p, n, 0);
        lemma_func_index(q, n, 0);
        if k < p.funcs.len() {
            lemma_there(p.funcs, q.funcs, f, g, k);
            lemma_func_named(q, g[k]);
        } else if m < q.funcs.len() {
            assert(q.funcs[m] == p.funcs[f[m]]);
        }
    }
}

// Sum types.

proof fn lemma_enum_index(p: ProgramV, n: Seq<char>, i: int)
    requires
        0 <= i <= p.enums.len(),
    ensures
        i <= enum_index(p, n, i) <= p.enums.len(),
        enum_index(p, n, i) < p.enums.len() ==> p.enums[enum_index(p, n, i)].name == n,
        forall|j: int| i <= j < enum_index(p, n, i) ==> (#[trigger] p.enums[j]).name != n,
    decreases p.enums.len() - i,
{
    if i < p.enums.len() && p.enums[i].name != n {
        lemma_enum_index(p, n, i + 1);
    }
}

/// No two sum types have one name.
pub open spec fn enums_apart(p: ProgramV) -> bool {
    forall|i: int, j: int|
        0 <= i < j < p.enums.len() ==> (#[trigger] p.enums[i]).name != (#[trigger] p.enums[j]).name
}

/// A sum type is the first of its name.
pub open spec fn enum_first(p: ProgramV, i: int) -> bool {
    enum_index(p, p.enums[i].name, 0) >= i
}

pub proof fn lemma_enums_apart(p: ProgramV)
    ensures
        enums_apart(p) <==> forall|i: int|
            0 <= i < p.enums.len() ==> #[trigger] enum_first(p, i),
{
    assert forall|i: int| 0 <= i < p.enums.len() && enums_apart(p) implies #[trigger] enum_first(
        p,
        i,
    ) by {
        lemma_enum_index(p, p.enums[i].name, 0);
    }
    if forall|i: int| 0 <= i < p.enums.len() ==> #[trigger] enum_first(p, i) {
        assert forall|i: int, j: int| 0 <= i < j < p.enums.len() implies (
        #[trigger] p.enums[i]).name != (#[trigger] p.enums[j]).name by {
            assert(enum_first(p, j));
            lemma_enum_index(p, p.enums[j].name, 0);
        }
    }
}

proof fn lemma_enum_named(p: ProgramV, i: int)
    requires
        enums_apart(p),
        0 <= i < p.enums.len(),
    ensures
        enum_named(p, p.enums[i].name) == Some(p.enums[i]),
{
    lemma_enum_index(p, p.enums[i].name, 0);
}

pub proof fn lemma_enums(p: ProgramV, q: ProgramV, f: Seq<int>, g: Seq<int>)
    requires
        reordered(p.enums, q.enums, f, g),
        enums_apart(p),
    ensures
        enums_apart(q),
        forall|n: Seq<char>| #[trigger] enum_named(p, n) == enum_named(q, n),
{
    assert forall|i: int, j: int| 0 <= i < j < q.enums.len() implies (#[trigger] q.enums[i]).name
        != (#[trigger] q.enums[j]).name by {
        assert(g[f[i]] == i && g[f[j]] == j);
    }
    assert forall|n: Seq<char>| #[trigger] enum_named(p, n) == enum_named(q, n) by {
        let k = enum_index(p, n, 0);
        let m = enum_index(q, n, 0);
        lemma_enum_index(p, n, 0);
        lemma_enum_index(q, n, 0);
        if k < p.enums.len() {
            lemma_there(p.enums, q.enums, f, g, k);
            lemma_enum_named(q, g[k]);
        } else if m < q.enums.len() {
            assert(q.enums[m] == p.enums[f[m]]);
        }
    }
}

// Variants.

/// A sum type has a variant of this name.
pub open spec fn has_variant(e: EnumDefV, n: Seq<char>) -> bool {
    variant_index(e.variants, n, 0) < e.variants.len()
}

pub proof fn lemma_variant_index(vs: Seq<EnumVariantV>, j: int, i: int)
    requires
        0 <= i <= j < vs.len(),
    ensures
        variant_index(vs, vs[j].name, i) <= j,
    decreases j - i,
{
    if i < j {
        lemma_variant_index(vs, j, i + 1);
    }
}

proof fn lemma_home(p: ProgramV, n: Seq<char>, i: int)
    requires
        0 <= i <= p.enums.len(),
    ensures
        i <= variant_home(p, n, i) <= p.enums.len(),
        variant_home(p, n, i) < p.enums.len() ==> has_variant(p.enums[variant_home(p, n, i)], n),
        forall|j: int| i <= j < variant_home(p, n, i) ==> !has_variant(#[trigger] p.enums[j], n),
    decreases p.enums.len() - i,
{
    if i < p.enums.len() && !has_variant(p.enums[i], n) {
        lemma_home(p, n, i + 1);
    }
}

/// No two sum types have a variant of one name.
pub open spec fn variants_apart(p: ProgramV) -> bool {
    forall|i: int, j: int, n: Seq<char>|
        0 <= i < j < p.enums.len() && #[trigger] has_variant(p.enums[i], n)
            ==> !#[trigger] has_variant(p.enums[j], n)
}

/// The variants of a sum type stand in none before it.
pub open spec fn at_home(p: ProgramV, i: int) -> bool {
    forall|n: Seq<char>| #[trigger] has_variant(p.enums[i], n) ==> variant_home(p, n, 0) >= i
}

pub proof fn lemma_variants_apart(p: ProgramV)
    ensures
        variants_apart(p) <==> forall|i: int| 0 <= i < p.enums.len() ==> #[trigger] at_home(p, i),
{
    assert forall|i: int| 0 <= i < p.enums.len() && variants_apart(p) implies #[trigger] at_home(
        p,
        i,
    ) by {
        assert forall|n: Seq<char>| #[trigger] has_variant(p.enums[i], n) implies variant_home(
            p,
            n,
            0,
        ) >= i by {
            lemma_home(p, n, 0);
        }
    }
    if forall|i: int| 0 <= i < p.enums.len() ==> #[trigger] at_home(p, i) {
        assert forall|i: int, j: int, n: Seq<char>|
            0 <= i < j < p.enums.len() && #[trigger] has_variant(
                p.enums[i],
                n,
            ) implies !#[trigger] has_variant(p.enums[j], n) by {
            assert(at_home(p, j));
            lemma_home(p, n, 0);
        }
    }
}

pub proof fn lemma_variants(p: ProgramV, q: ProgramV, f: Seq<int>, g: Seq<int>)
    requires
        reordered(p.enums, q.enums, f, g),
        variants_apart(p),
    ensures
        variants_apart(q),
        forall|n: Seq<char>| #[trigger] variant_named(p, n) == variant_named(q, n),
{
    assert forall|i: int, j: int, n: Seq<char>|
        0 <= i < j < q.enums.len() && #[trigger] has_variant(
            q.enums[i],
            n,
        ) implies !#[trigger] has_variant(q.enums[j], n) by {
        assert(g[f[i]] == i && g[f[j]] == j);
        assert(q.enums[i] == p.enums[f[i]] && q.enums[j] == p.enums[f[j]]);
    }
    assert forall|n: Seq<char>| #[trigger] variant_named(p, n) == variant_named(q, n) by {
        let k = variant_home(p, n, 0);
        let m = variant_home(q, n, 0);
        lemma_home(p, n, 0);
        lemma_home(q, n, 0);
        if k < p.enums.len() {
            lemma_there(p.enums, q.enums, f, g, k);
            assert(has_variant(q.enums[g[k]], n));
            if m < g[k] {
                assert(!has_variant(q.enums[g[k]], n));
            }
        } else if m < q.enums.len() {
            assert(q.enums[m] == p.enums[f[m]]);
            assert(has_variant(p.enums[f[m]], n));
        }
    }
}

} // verus!
