//! The names in a text, and what they hold.
use vstd::prelude::*;
#[allow(unused_imports)]
use crate::faithful::machine::{opnd_val, State};
#[allow(unused_imports)]
use crate::ir::OpndV;
#[allow(unused_imports)]
use crate::laws::emitted::{is_writable, opnd_word, reg_word, str_word, strs_with, var_word};
#[allow(unused_imports)]
use crate::laws::lines::lemma_dec_solid;
#[allow(unused_imports)]
use crate::laws::llvm::{int_written, value, writes_int, Env};
#[allow(unused_imports)]
use crate::laws::phrases::aux_word;
#[allow(unused_imports)]
use crate::laws::writing::lemma_number;
#[allow(unused_imports)]
use crate::lexer::is_digit;
#[allow(unused_imports)]
use crate::meaning::Base;
#[allow(unused_imports)]
use crate::memory::heap::{on_machine, wrapped, Heap, Word};
#[allow(unused_imports)]
use crate::text::{dec_text, int_text};

verus! {

/// Each name holds what it stands for: those of registers that have one, of variables and of
/// string constants.
pub open spec fn agrees(
    other: Base<Word, Heap>,
    env: Env,
    s: State<Word, Heap>,
    named: Set<nat>,
    strs: Seq<Seq<char>>,
) -> bool {
    &&& forall|r: nat| named.contains(r) ==> env[#[trigger] reg_word(r)] == s.regs[r]
    &&& forall|i: nat| env[#[trigger] var_word(i)] == s.vars[i]
    &&& forall|k: nat|
        k < strs.len() ==> env[#[trigger] str_word(k)] == (other.konst)(
            OpndV::Str(strs[k as int]),
        )
}

/// An operand whose register has a name.
pub open spec fn is_named(named: Set<nat>, v: OpndV) -> bool {
    v matches OpndV::Reg(r) ==> named.contains(r)
}

/// `a` is what `b` starts with.
pub open spec fn starts(a: Seq<Seq<char>>, b: Seq<Seq<char>>) -> bool {
    a.len() <= b.len() && forall|i: int| 0 <= i < a.len() ==> #[trigger] a[i] == b[i]
}

pub proof fn lemma_starts(a: Seq<Seq<char>>, v: OpndV, b: Seq<Seq<char>>)
    requires
        starts(strs_with(a, v), b),
    ensures
        starts(a, b),
        v matches OpndV::Str(s) ==> a.len() < b.len() && b[a.len() as int] == s,
{
    let c = strs_with(a, v);
    assert forall|i: int| 0 <= i < a.len() implies #[trigger] a[i] == b[i] by {
        assert(c[i] == a[i]);
    }
    if v is Str {
        assert(c[a.len() as int] == v->Str_0);
    }
}

proof fn lemma_int_value(n: int)
    ensures
        writes_int(int_text(n)),
        int_written(int_text(n)) == n,
        int_text(n).len() > 0,
        is_digit(int_text(n)[0]) || int_text(n)[0] == '-',
{
    reveal_strlit("-");
    if n < 0 {
        let d = dec_text((-n) as nat);
        lemma_number((-n) as nat);
        assert(int_text(n).drop_first() =~= d);
    } else {
        lemma_number(n as nat);
        assert(is_digit(dec_text(n as nat)[0]));
    }
}

pub proof fn lemma_dec_value(other: Base<Word, Heap>, env: Env, n: nat)
    requires
        n <= i64::MAX,
    ensures
        value(other, env, dec_text(n)) == Word::Int(n as i64),
{
    lemma_number(n);
    lemma_no_word(dec_text(n));
    assert(is_digit(dec_text(n)[0]));
    reveal(value);
    assert(writes_int(dec_text(n)));
    assert(wrapped(n as int) == n);
}

/// A text that starts with a digit or a minus sign is none of the words for constants.
proof fn lemma_no_word(w: Seq<char>)
    requires
        w.len() > 0,
        is_digit(w[0]) || w[0] == '-',
    ensures
        w != "true"@,
        w != "false"@,
        w != "null"@,
{
    reveal_strlit("true");
    reveal_strlit("false");
    reveal_strlit("null");
    assert("true"@[0] == 't');
    assert("false"@[0] == 'f');
    assert("null"@[0] == 'n');
}

/// The value of an operand is that of its word.
pub proof fn lemma_value(
    other: Base<Word, Heap>,
    env: Env,
    s: State<Word, Heap>,
    named: Set<nat>,
    before: Seq<Seq<char>>,
    strs: Seq<Seq<char>>,
    v: OpndV,
)
    requires
        agrees(other, env, s, named, strs),
        is_named(named, v),
        is_writable(v),
        starts(strs_with(before, v), strs),
    ensures
        value(other, env, opnd_word(before.len(), v)) == opnd_val(on_machine(other), s, v),
{
    lemma_starts(before, v, strs);
    match v {
        OpndV::Reg(r) => {
            reveal(value);
            reveal_strlit("%r");
            assert(reg_word(r)[0] == '%');
        },
        OpndV::Int(n) => {
            let w = int_text(n as int);
            lemma_int_value(n as int);
            lemma_no_word(w);
            reveal(value);
            assert(wrapped(n as int) == n);
        },
        OpndV::Size(n) => {
            lemma_dec_value(other, env, n as nat);
        },
        OpndV::Bool(b) => {
            reveal(value);
            reveal_strlit("true");
            reveal_strlit("false");
            assert("true"@[0] == 't');
            assert("false"@[0] == 'f');
        },
        OpndV::Float(t) => {
            lemma_no_word(t);
            reveal(value);
        },
        OpndV::Str(t) => {
            reveal(value);
            reveal_strlit("@.s");
            assert(str_word(before.len())[0] == '@');
        },
        OpndV::Null => {
            reveal(value);
            reveal_strlit("true");
            reveal_strlit("false");
            reveal_strlit("null");
            assert("true"@[0] == 't');
            assert("false"@[0] == 'f');
            assert("null"@[0] == 'n');
        },
    }
}

// Names differ.

proof fn lemma_same_tail(a: Seq<char>, b: Seq<char>, m: nat, n: nat)
    requires
        a.len() == b.len(),
        a + dec_text(m) == b + dec_text(n),
    ensures
        m == n,
{
    lemma_number(m);
    lemma_number(n);
    lemma_tails(a, b, dec_text(m), dec_text(n));
}

proof fn lemma_tails(a: Seq<char>, b: Seq<char>, x: Seq<char>, y: Seq<char>)
    requires
        a.len() == b.len(),
        a + x == b + y,
    ensures
        x == y,
{
    assert(x =~= (a + x).skip(a.len() as int));
    assert(y =~= (b + y).skip(a.len() as int));
}

pub proof fn lemma_regs_differ(a: nat, b: nat)
    requires
        a != b,
    ensures
        reg_word(a) != reg_word(b),
{
    if reg_word(a) == reg_word(b) {
        lemma_same_tail("%r"@, "%r"@, a, b);
    }
}

pub proof fn lemma_vars_differ(a: nat, b: nat)
    requires
        a != b,
    ensures
        var_word(a) != var_word(b),
{
    if var_word(a) == var_word(b) {
        lemma_same_tail("%v"@, "%v"@, a, b);
    }
}

pub proof fn lemma_kinds_differ(r: nat, i: nat, k: nat)
    ensures
        reg_word(r) != var_word(i),
        reg_word(r) != str_word(k),
        var_word(i) != str_word(k),
{
    reveal_strlit("%r");
    reveal_strlit("%v");
    reveal_strlit("@.s");
    assert(reg_word(r)[1] == 'r');
    assert(var_word(i)[1] == 'v');
    assert(reg_word(r)[0] == '%');
    assert(var_word(i)[0] == '%');
    assert(str_word(k)[0] == '@');
}

pub proof fn lemma_aux_differs(d: nat, x: Seq<char>, r: nat, i: nat, k: nat)
    requires
        x.len() > 0,
        x[0] == '.',
    ensures
        aux_word(d, x) != reg_word(r),
        aux_word(d, x) != var_word(i),
        aux_word(d, x) != str_word(k),
{
    reveal_strlit("%r");
    reveal_strlit("%v");
    reveal_strlit("@.s");
    lemma_dec_solid(d);
    lemma_dec_solid(r);
    assert(var_word(i)[1] == 'v');
    assert(str_word(k)[0] == '@');
    assert(aux_word(d, x)[0] == reg_word(d)[0]);
    assert(aux_word(d, x)[1] == reg_word(d)[1]);
    assert(reg_word(d)[0] == '%');
    assert(reg_word(d)[1] == 'r');
    if aux_word(d, x) == reg_word(r) {
        assert(aux_word(d, x) =~= "%r"@ + (dec_text(d) + x));
        lemma_tails("%r"@, "%r"@, dec_text(d) + x, dec_text(r));
        assert((dec_text(d) + x)[dec_text(d).len() as int] == x[0]);
        assert('0' <= dec_text(r)[dec_text(d).len() as int]);
    }
}

/// A register gets a value.
pub proof fn lemma_set_reg(
    other: Base<Word, Heap>,
    env: Env,
    s: State<Word, Heap>,
    named: Set<nat>,
    strs: Seq<Seq<char>>,
    dst: nat,
    v: Word,
    w: Heap,
)
    requires
        agrees(other, env, s, named, strs),
    ensures
        agrees(
            other,
            env.insert(reg_word(dst), v),
            State { regs: s.regs.insert(dst, v), vars: s.vars, w },
            named.insert(dst),
            strs,
        ),
{
    let e = env.insert(reg_word(dst), v);
    assert forall|r: nat| named.insert(dst).contains(r) implies e[#[trigger] reg_word(r)]
        == s.regs.insert(dst, v)[r] by {
        if r != dst {
            lemma_regs_differ(r, dst);
        }
    }
    assert forall|i: nat| e[#[trigger] var_word(i)] == s.vars[i] by {
        lemma_kinds_differ(dst, i, 0);
    }
    assert forall|k: nat| k < strs.len() implies e[#[trigger] str_word(k)] == (other.konst)(
        OpndV::Str(strs[k as int]),
    ) by {
        lemma_kinds_differ(dst, 0, k);
    }
}

/// A register gets a value that has no name.
pub proof fn lemma_unname(
    other: Base<Word, Heap>,
    env: Env,
    s: State<Word, Heap>,
    named: Set<nat>,
    strs: Seq<Seq<char>>,
    dst: nat,
    v: Word,
    w: Heap,
)
    requires
        agrees(other, env, s, named, strs),
    ensures
        agrees(
            other,
            env,
            State { regs: s.regs.insert(dst, v), vars: s.vars, w },
            named.remove(dst),
            strs,
        ),
{
}

/// A variable gets a value.
pub proof fn lemma_set_var(
    other: Base<Word, Heap>,
    env: Env,
    s: State<Word, Heap>,
    named: Set<nat>,
    strs: Seq<Seq<char>>,
    n: nat,
    v: Word,
)
    requires
        agrees(other, env, s, named, strs),
    ensures
        agrees(
            other,
            env.insert(var_word(n), v),
            State { regs: s.regs, vars: s.vars.insert(n, v), w: s.w },
            named,
            strs,
        ),
{
    let e = env.insert(var_word(n), v);
    assert forall|r: nat| named.contains(r) implies e[#[trigger] reg_word(r)] == s.regs[r] by {
        lemma_kinds_differ(r, n, 0);
    }
    assert forall|i: nat| e[#[trigger] var_word(i)] == s.vars.insert(n, v)[i] by {
        if i != n {
            lemma_vars_differ(i, n);
        }
    }
    assert forall|k: nat| k < strs.len() implies e[#[trigger] str_word(k)] == (other.konst)(
        OpndV::Str(strs[k as int]),
    ) by {
        lemma_kinds_differ(0, n, k);
    }
}

/// A name of another kind gets a value.
pub proof fn lemma_set_aux(
    other: Base<Word, Heap>,
    env: Env,
    s: State<Word, Heap>,
    named: Set<nat>,
    strs: Seq<Seq<char>>,
    dst: nat,
    x: Seq<char>,
    v: Word,
)
    requires
        agrees(other, env, s, named, strs),
        x.len() > 0,
        x[0] == '.',
    ensures
        agrees(other, env.insert(aux_word(dst, x), v), s, named, strs),
{
    let e = env.insert(aux_word(dst, x), v);
    assert forall|r: nat| named.contains(r) implies e[#[trigger] reg_word(r)] == s.regs[r] by {
        lemma_aux_differs(dst, x, r, 0, 0);
    }
    assert forall|i: nat| e[#[trigger] var_word(i)] == s.vars[i] by {
        lemma_aux_differs(dst, x, 0, i, 0);
    }
    assert forall|k: nat| k < strs.len() implies e[#[trigger] str_word(k)] == (other.konst)(
        OpndV::Str(strs[k as int]),
    ) by {
        lemma_aux_differs(dst, x, 0, 0, k);
    }
}

} // verus!
