//! Why a lowered program does what the program means.
use vstd::prelude::*;
#[allow(unused_imports)]
use crate::ast::{FunctionV, ProgramV, StmtV};
#[allow(unused_imports)]
use crate::blocks::{flat_func, FlatFuncV};
#[allow(unused_imports)]
use crate::faithful::confined::functions_leave_no_loop;
#[allow(unused_imports)]
use crate::faithful::machine::{begins, go, machine, opnd_val, State};
#[allow(unused_imports)]
use crate::faithful::shapes::lemma_grows;
#[allow(unused_imports)]
use crate::faithful::stmt_anatomy::{
    parts_of_stmts, sense_of_stmts, stmt_at, stmt_sense, stmts_at, stmts_ok, stmts_sense,
};
#[allow(unused_imports)]
use crate::faithful::stmt_landing::holds_vals;
#[allow(unused_imports)]
use crate::faithful::stmt_shapes::{held, lemma_stmts_shape};
#[allow(unused_imports)]
use crate::faithful::stmts::lemma_stmts;
#[allow(unused_imports)]
use crate::flow::{
    answer, blocks_do_what_code_does, code_does_what_blocks_do, run, run_block, Fin, Out,
};
#[allow(unused_imports)]
use crate::ir::{CodeV, IrFuncV};
#[allow(unused_imports)]
use crate::lowering::{
    block_closed, closes, lower_func, lowered, param_slots, param_vars, tenv, zero_of, Gen, VarV,
};
#[allow(unused_imports)]
use crate::meaning::{calls, function, param_names, stmts, with_calls, After, Base, Done, Ground};
#[allow(unused_imports)]
use crate::typing::{bodies_ok, checked, func_ok, param_env, resolve, Place};

verus! {

/// The state in which a function starts: its variables are its parameters.
pub open spec fn entry<V, W>(args: Seq<V>, w: W) -> State<V, W> {
    State {
        regs: Map::empty(),
        vars: Map::new(|k: nat| k < args.len(), |k: nat| args[k as int]),
        w,
    }
}

/// What comes of a call, from what comes of the code of the function.
pub open spec fn call_end<V, W>(
    g: Ground<V, W>,
    b: Base<V, W>,
    out: Option<Out<State<V, W>>>,
    w: W,
) -> Done<V, W> {
    match out {
        Some(Out::Ret(t, o)) => Done::Go(opnd_val(b, t, o), t.w),
        Some(Out::Halt(t, msg)) => Done::Stop((g.halt)(msg, t.w)),
        Some(Out::Stop(t)) => Done::Stop(t.w),
        _ => Done::Stop((g.lost)(w)),
    }
}

/// What comes of a lowered function.
pub open spec fn code_call<V, W>(
    g: Ground<V, W>,
    b: Base<V, W>,
    f: IrFuncV,
    args: Seq<V>,
    w: W,
    fuel: nat,
) -> Done<V, W> {
    call_end(g, b, run(machine(b), f.code, 0, entry(args, w), fuel), w)
}

/// What calls of lowered functions do, where they are nested no deeper than `depth` and no
/// loop takes more turns than `fuel` allows.
pub open spec fn code_calls<V, W>(
    g: Ground<V, W>,
    fs: Seq<IrFuncV>,
    depth: nat,
    fuel: nat,
) -> spec_fn(nat, Seq<V>, W) -> Done<V, W>
    decreases depth,
{
    if depth == 0 {
        |f: nat, args: Seq<V>, w: W| Done::Stop((g.lost)(w))
    } else {
        let b = with_calls(g, code_calls(g, fs, (depth - 1) as nat, fuel));
        |f: nat, args: Seq<V>, w: W|
            if f < fs.len() && args.len() == fs[f as int].params.len() {
                code_call(g, b, fs[f as int], args, w, fuel)
            } else {
                Done::Stop((g.lost)(w))
            }
    }
}

/// The variables of every function can be counted.
pub open spec fn countable(p: ProgramV) -> bool {
    forall|i: int|
        0 <= i < p.funcs.len() ==> lower_func(p, #[trigger] p.funcs[i]).slots.len() <= usize::MAX
}

/// Where a function of a program stands.
pub open spec fn func_place(p: ProgramV, f: FunctionV) -> Place {
    Place { prog: p, ret: resolve(p, f.ret), in_loop: false }
}

pub proof fn lemma_bodies(p: ProgramV, i: int, k: int)
    requires
        0 <= i <= k < p.funcs.len(),
        bodies_ok(p, i) is Ok,
    ensures
        func_ok(p, p.funcs[k]) is Ok,
    decreases k - i,
{
    if i < k {
        lemma_bodies(p, i + 1, k);
    }
}

pub proof fn lemma_params(p: ProgramV, f: FunctionV)
    requires
        func_ok(p, f) is Ok,
    ensures
        tenv(param_vars(p, f.params)) == param_names(p, f.params),
        stmts_ok(func_place(p, f), param_vars(p, f.params), f.body, 0),
{
    reveal(stmts_ok);
    assert(tenv(param_vars(p, f.params)) =~= param_names(p, f.params));
    assert(param_env(p, f.params) =~= param_names(p, f.params));
}

/// The code of the body of a function.
pub open spec fn body_at(p: ProgramV, f: FunctionV) -> Gen {
    let start = Gen {
        code: Seq::empty(),
        regs: Seq::empty(),
        slots: param_slots(p, f.params),
    };
    stmts_at(p, param_vars(p, f.params), start, f.body, 0)
}

proof fn lemma_func_parts(p: ProgramV, f: FunctionV)
    ensures
        lower_func(p, f).slots == body_at(p, f).slots,
        lower_func(p, f).params == param_slots(p, f.params),
        lower_func(p, f).code == if block_closed(f.body) {
            body_at(p, f).code
        } else {
            body_at(p, f).code.push(CodeV::Return(zero_of(resolve(p, f.ret))))
        },
{
    reveal(stmts_at);
}

proof fn lemma_entry<V, W>(p: ProgramV, f: FunctionV, args: Seq<V>, w: W)
    requires
        args.len() == f.params.len(),
        f.params.len() <= usize::MAX,
    ensures
        ({
            let start = Gen {
                code: Seq::empty(),
                regs: Seq::empty(),
                slots: param_slots(p, f.params),
            };
            &&& held(param_vars(p, f.params), start)
            &&& holds_vals(param_vars(p, f.params), entry(args, w), args)
        }),
{
    reveal(held);
    reveal(holds_vals);
}

/// Where one of the statements ends their block, the end of the block is not reached.
proof fn lemma_closed<V, W>(
    b: Base<V, W>,
    cx: Place,
    vars: Seq<VarV>,
    vals: Seq<V>,
    g: Gen,
    ss: Seq<StmtV>,
    i: int,
    k: int,
    w: W,
    fuel: nat,
)
    requires
        stmts_ok(cx, vars, ss, i),
        0 <= i <= k < ss.len(),
        closes(ss[k]),
    ensures
        !(stmts_sense(b, cx.prog, vars, vals, ss, i, w, fuel) matches Some(After::Next(_, _))),
    decreases k - i,
{
    parts_of_stmts(cx, vars, g, ss, i);
    sense_of_stmts(b, cx, vars, vals, g, ss, i, w, fuel);
    if i < k {
        let (g1, after) = stmt_at(cx.prog, vars, g, ss[i]);
        if let Some(After::Next(vals1, w1)) = stmt_sense(b, cx.prog, vars, vals, ss[i], w, fuel) {
            lemma_closed(b, cx, after, vals1, g1, ss, i + 1, k, w1, fuel);
        }
    }
}

/// What comes of the code of an accepted function is what comes of its statements, and the
/// zero of its type where they come to their end.
proof fn lemma_function<V, W>(
    b: Base<V, W>,
    p: ProgramV,
    f: FunctionV,
    args: Seq<V>,
    w: W,
    fuel: nat,
) -> (t: State<V, W>)
    requires
        func_ok(p, f) is Ok,
        lower_func(p, f).slots.len() <= usize::MAX,
        args.len() == f.params.len(),
    ensures
        ({
            let out = run(machine(b), lower_func(p, f).code, 0, entry(args, w), fuel);
            match stmts(b, p, param_names(p, f.params), args, f.body, 0, w, fuel) {
                Some(After::Next(_, w1)) => out == Some(
                    Out::Ret(t, zero_of(resolve(p, f.ret))),
                ) && t.w == w1,
                Some(After::Ret(v, w1)) => match out {
                    Some(Out::Ret(t1, o)) => t1.w == w1 && opnd_val(b, t1, o) == v,
                    _ => false,
                },
                Some(After::Halt(msg, w1)) => match out {
                    Some(Out::Halt(t1, m)) => t1.w == w1 && m == msg,
                    _ => false,
                },
                Some(After::Stop(w1)) => match out {
                    Some(Out::Stop(t1)) => t1.w == w1,
                    _ => false,
                },
                Some(After::Brk(_, _)) => out matches Some(Out::Brk(_)),
                Some(After::Cont(_, _)) => out matches Some(Out::Cont(_)),
                None => out is None,
            }
        }),
{
    let vars = param_vars(p, f.params);
    let start = Gen { code: Seq::empty(), regs: Seq::empty(), slots: param_slots(p, f.params) };
    let body = body_at(p, f);
    let code = lower_func(p, f).code;
    let cx = func_place(p, f);
    let s = entry(args, w);
    lemma_params(p, f);
    lemma_func_parts(p, f);
    lemma_stmts_shape(cx, vars, start, f.body, 0);
    lemma_grows(start, body);
    lemma_entry(p, f, args, w);
    assert(begins(code, body)) by {
        reveal(begins);
        assert(code.take(body.code.len() as int) =~= body.code);
    }
    let t = lemma_stmts(b, cx, vars, args, code, start, f.body, 0, s, fuel);
    if let Some(After::Next(_, w1)) = stmts_sense(b, p, vars, args, f.body, 0, w, fuel) {
        if block_closed(f.body) {
            let k = choose|k: int| 0 <= k < f.body.len() && closes(#[trigger] f.body[k]);
            lemma_closed(b, cx, vars, args, start, f.body, 0, k, w, fuel);
        } else {
            assert(code[body.code.len() as int] == code.last());
        }
    }
    reveal(stmts_sense);
    reveal(go);
    t
}

/// Lowering keeps the meaning of a function: on the same arguments, in the same world and
/// with the same calls, the code of an accepted function returns the value that the function
/// returns, ends the program with the message that the function ends it with, and leaves the
/// world as the function leaves it.
pub proof fn lowering_keeps_the_meaning<V, W>(
    g: Ground<V, W>,
    b: Base<V, W>,
    p: ProgramV,
    f: FunctionV,
    args: Seq<V>,
    w: W,
    fuel: nat,
)
    requires
        func_ok(p, f) is Ok,
        lower_func(p, f).slots.len() <= usize::MAX,
        args.len() == f.params.len(),
    ensures
        code_call(g, b, lower_func(p, f), args, w, fuel) == function(g, b, p, f, args, w, fuel),
{
    let t = lemma_function(b, p, f, args, w, fuel);
}

/// Lowering keeps the meaning of a program: a call of any of its functions comes to the same
/// on the program and on its code, however deep calls are nested and however often loops are
/// taken.
pub proof fn lowered_programs_mean_the_same<V, W>(
    g: Ground<V, W>,
    p: ProgramV,
    depth: nat,
    fuel: nat,
)
    requires
        checked(p) is Ok,
        countable(p),
    ensures
        code_calls(g, lowered(p), depth, fuel) == calls(g, p, depth, fuel),
    decreases depth,
{
    let fs = lowered(p);
    if depth > 0 {
        let less = (depth - 1) as nat;
        lowered_programs_mean_the_same(g, p, less, fuel);
        let b = with_calls(g, calls(g, p, less, fuel));
        let ours = code_calls(g, fs, depth, fuel);
        let theirs = calls(g, p, depth, fuel);
        assert forall|f: nat, args: Seq<V>, w: W| #[trigger]
            ours(f, args, w) == theirs(f, args, w) by {
            if f < p.funcs.len() {
                lemma_func_parts(p, p.funcs[f as int]);
                if args.len() == p.funcs[f as int].params.len() {
                    lemma_bodies(p, 0, f as int);
                    lowering_keeps_the_meaning(g, b, p, p.funcs[f as int], args, w, fuel);
                }
            }
        }
        assert(ours =~= theirs);
    } else {
        assert(code_calls(g, fs, depth, fuel) =~= calls(g, p, depth, fuel));
    }
}

/// What comes of a call, from what comes of the blocks of the function.
pub open spec fn fin_end<V, W>(g: Ground<V, W>, b: Base<V, W>, fin: Fin<State<V, W>>) -> Done<
    V,
    W,
> {
    match fin {
        Fin::Ret(t, o) => Done::Go(opnd_val(b, t, o), t.w),
        Fin::Halt(t, msg) => Done::Stop((g.halt)(msg, t.w)),
        Fin::Stop(t) => Done::Stop(t.w),
    }
}

/// What comes of a function as blocks, in at most `n` blocks.
pub open spec fn block_call<V, W>(
    g: Ground<V, W>,
    b: Base<V, W>,
    f: FlatFuncV,
    args: Seq<V>,
    w: W,
    n: nat,
) -> Option<Done<V, W>> {
    match run_block(machine(b), f.blocks, 0, entry(args, w), n) {
        Some(fin) => Some(fin_end(g, b, fin)),
        None => None,
    }
}

/// The loops of a function, on these arguments, are over within `fuel` turns each.
pub open spec fn ends_within<V, W>(
    b: Base<V, W>,
    p: ProgramV,
    f: FunctionV,
    args: Seq<V>,
    w: W,
    fuel: nat,
) -> bool {
    stmts(b, p, param_names(p, f.params), args, f.body, 0, w, fuel) is Some
}

/// The blocks of an accepted function come to what the function comes to.
pub proof fn blocks_mean_what_functions_mean<V, W>(
    g: Ground<V, W>,
    b: Base<V, W>,
    p: ProgramV,
    f: FunctionV,
    args: Seq<V>,
    w: W,
    fuel: nat,
)
    requires
        func_ok(p, f) is Ok,
        lower_func(p, f).slots.len() <= usize::MAX,
        args.len() == f.params.len(),
        ends_within(b, p, f, args, w, fuel),
    ensures
        exists|n: nat| #[trigger]
            block_call(g, b, flat_func(lower_func(p, f)), args, w, n) == Some(
                function(g, b, p, f, args, w, fuel),
            ),
{
    let fc = lower_func(p, f);
    let m = machine(b);
    let s = entry(args, w);
    let t = lemma_function(b, p, f, args, w, fuel);
    functions_leave_no_loop(b, p, f, args, w, fuel);
    blocks_do_what_code_does(m, fc, s, fuel);
    let n = choose|n: nat| #[trigger]
        run_block(m, flat_func(fc).blocks, 0, s, n) == answer(run(m, fc.code, 0, s, fuel)->0);
    assert(block_call(g, b, flat_func(fc), args, w, n) == Some(
        function(g, b, p, f, args, w, fuel),
    ));
}

/// The blocks of an accepted function come to nothing else: where they come to an answer, the
/// loops of the function are over and it comes to the same.
pub proof fn functions_mean_what_blocks_mean<V, W>(
    g: Ground<V, W>,
    b: Base<V, W>,
    p: ProgramV,
    f: FunctionV,
    args: Seq<V>,
    w: W,
    n: nat,
)
    requires
        func_ok(p, f) is Ok,
        lower_func(p, f).slots.len() <= usize::MAX,
        args.len() == f.params.len(),
        block_call(g, b, flat_func(lower_func(p, f)), args, w, n) is Some,
    ensures
        ends_within(b, p, f, args, w, n),
        block_call(g, b, flat_func(lower_func(p, f)), args, w, n) == Some(
            function(g, b, p, f, args, w, n),
        ),
{
    let fc = lower_func(p, f);
    let m = machine(b);
    let s = entry(args, w);
    code_does_what_blocks_do(m, fc, s, n);
    let t = lemma_function(b, p, f, args, w, n);
    functions_leave_no_loop(b, p, f, args, w, n);
}

} // verus!
