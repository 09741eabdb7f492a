//! What comes of the lines of an operation.
use crate::ir::{IrTy, Op, Pred};
use vstd::prelude::*;
#[allow(unused_imports)]
use crate::assembly::{
    arg, float_pred_text, one_text, opnd_ty, pred_text, ty_at, ty_text, two_text, Around,
};
#[allow(unused_imports)]
use crate::faithful::machine::{kept, opnd_val, opnd_vals, step, State};
#[allow(unused_imports)]
use crate::flow::Did;
#[allow(unused_imports)]
use crate::ir::{InstV, OpndV};
#[allow(unused_imports)]
use crate::laws::emitted::{is_writable, opnd_word, reg_word, str_word, strs_with, var_word};
#[allow(unused_imports)]
use crate::laws::instructions::{op_lines, op_strs, takes};
#[allow(unused_imports)]
use crate::laws::lines::{lemma_dec_solid, Line};
#[allow(unused_imports)]
use crate::laws::llvm::{
    called, carry_on, carry_out, convert, is_var, operands, result, value, width, After, Env, Mn,
};
#[allow(unused_imports)]
use crate::laws::names::{
    agrees, is_named, lemma_dec_value, lemma_set_aux, lemma_set_reg, lemma_set_var, lemma_starts,
    lemma_unname, lemma_value, starts,
};
#[allow(unused_imports)]
use crate::laws::phrases::{aux_word, def, shift_lines};
#[allow(unused_imports)]
use crate::laws::places::{
    are_writable, arg_words, call_line, gep, load_byte_lines, store_byte_lines, store_line,
    strs_with_all,
};
#[allow(unused_imports)]
use crate::laws::vocabulary::{
    lemma_float_tests, lemma_int_tests, lemma_linked, lemma_mnemonics, lemma_new_names,
    lemma_widths, rt_word,
};
#[allow(unused_imports)]
use crate::laws::wording::{one_line, one_words, second_word, two_words};
#[allow(unused_imports)]
use crate::meaning::{Base, Done};
#[allow(unused_imports)]
use crate::memory::heap::{is_place, machine_op, number, on_machine, Heap, Word};
#[allow(unused_imports)]
use crate::text::{dec_text, int_text};

verus! {

/// What comes of a definition.
pub open spec fn after_def(env: Env, word: Seq<char>, d: Done<Word, Heap>) -> After {
    match d {
        Done::Go(v, g) => After::Go(env.insert(word, v), g),
        Done::Stop(g) => After::Stop(g),
    }
}

pub proof fn lemma_carry_def(
    other: Base<Word, Heap>,
    funcs: Seq<Seq<char>>,
    line: Line,
    word: Seq<char>,
    rest: Line,
    env: Env,
    h: Heap,
)
    requires
        line == seq![word, "="@] + rest,
        rest.len() > 0,
    ensures
        carry_out(other, funcs, line, env, h) == after_def(
            env,
            word,
            result(other, funcs, rest, env, h),
        ),
{
    reveal(carry_out);
    assert(line.skip(2) =~= rest);
    assert(line[1] == "="@);
    assert(line[0] == word);
}

pub proof fn lemma_carry_one(
    other: Base<Word, Heap>,
    funcs: Seq<Seq<char>>,
    line: Line,
    env: Env,
    h: Heap,
)
    ensures
        carry_on(other, funcs, seq![line], 0, env, h) == carry_out(other, funcs, line, env, h),
{
    reveal_with_fuel(carry_on, 2);
    assert(seq![line][0] == line);
}

pub proof fn lemma_carry_two(
    other: Base<Word, Heap>,
    funcs: Seq<Seq<char>>,
    l1: Line,
    l2: Line,
    env: Env,
    h: Heap,
)
    ensures
        carry_on(other, funcs, seq![l1, l2], 0, env, h) == (match carry_out(
            other,
            funcs,
            l1,
            env,
            h,
        ) {
            After::Go(e, g) => carry_out(other, funcs, l2, e, g),
            After::Stop(g) => After::Stop(g),
        }),
{
    reveal_with_fuel(carry_on, 3);
    assert(seq![l1, l2][0] == l1);
    assert(seq![l1, l2][1] == l2);
}

// Values of words that are always the same.

proof fn lemma_small(other: Base<Word, Heap>, env: Env)
    ensures
        value(other, env, "0"@) == Word::Int(0),
        value(other, env, "63"@) == Word::Int(63),
        value(other, env, "-1"@) == Word::Int(-1i64 as i64),
        value(other, env, "true"@) == Word::Bit(true),
        value(other, env, "null"@) == Word::Null,
{
    reveal_strlit("0");
    reveal_strlit("63");
    reveal_strlit("-1");
    reveal_strlit("-");
    reveal_with_fuel(dec_text, 3);
    assert(dec_text(0) =~= "0"@);
    assert(dec_text(63) =~= "63"@);
    assert(int_text(-1) =~= "-1"@);
    lemma_dec_value(other, env, 0);
    lemma_dec_value(other, env, 63);
    let s = State { regs: Map::empty(), vars: Map::new(|i: nat| true, |i: nat| env[var_word(i)]), w: arbitrary() };
    let none = Seq::<Seq<char>>::empty();
    assert(agrees(other, env, s, Set::empty(), none));
    lemma_value(other, env, s, Set::empty(), none, none, OpndV::Int(-1i64 as i64));
    lemma_value(other, env, s, Set::empty(), none, none, OpndV::Bool(true));
    lemma_value(other, env, s, Set::empty(), none, none, OpndV::Null);
}

// Two operands.

proof fn lemma_two_result(
    other: Base<Word, Heap>,
    funcs: Seq<Seq<char>>,
    op: Op,
    aw: Seq<char>,
    bw: Seq<char>,
    env: Env,
    h: Heap,
)
    requires
        two_text(op) is Some,
    ensures
        result(other, funcs, seq![two_words(op).0, two_words(op).1, aw, bw], env, h)
            == machine_op(
            other,
            op,
            seq![value(other, env, aw), value(other, env, bw)],
            h,
        ),
{
    lemma_mnemonics();
    lemma_widths();
    reveal(result);
    let ws = seq![two_words(op).0, two_words(op).1, aw, bw];
    assert(ws[0] == two_words(op).0);
    assert(ws[1] == two_words(op).1);
    assert(ws[2] == aw);
    assert(ws[3] == bw);
}

// One operand.

proof fn lemma_one_result(
    other: Base<Word, Heap>,
    funcs: Seq<Seq<char>>,
    op: Op,
    aw: Seq<char>,
    env: Env,
    h: Heap,
)
    requires
        one_text(op) is Some,
    ensures
        result(other, funcs, one_words(op).0.push(aw) + one_words(op).1, env, h) == machine_op(
            other,
            op,
            seq![value(other, env, aw)],
            h,
        ),
{
    lemma_mnemonics();
    lemma_widths();
    lemma_small(other, env);
    reveal(result);
    let ws = one_words(op).0.push(aw) + one_words(op).1;
    let a = value(other, env, aw);
    match op {
        Op::Neg => {
            assert(ws =~= seq!["sub"@, "i64"@, "0"@, aw]);
        },
        Op::BitNot => {
            assert(ws =~= seq!["xor"@, "i64"@, aw, "-1"@]);
            if let Word::Int(x) = a {
                assert(x ^ (-1i64) == !x) by (bit_vector);
            }
        },
        Op::Not => {
            assert(ws =~= seq!["xor"@, "i1"@, aw, "true"@]);
        },
        Op::SlotToBool => {
            assert(ws =~= seq!["icmp"@, "ne"@, "i64"@, aw, "0"@]);
            if let Word::Int(x) = a {
                lemma_int_tests(Pred::Ne, x as int, 0);
            }
        },
        Op::IsNull => {
            assert(ws =~= seq!["icmp"@, "eq"@, "ptr"@, aw, "null"@]);
        },
        _ => {
            assert(ws[0] == one_words(op).0[0]);
            assert(ws[1] == one_words(op).0[1]);
            assert(ws[2] == aw);
        },
    }
}


// The rest.

proof fn lemma_masked(b: i64)
    ensures
        0 <= (b & 63i64) < 64,
        (b & 63i64) as u64 == (b as int % 64) as u64,
{
    assert(0 <= (b & 63i64) < 64) by (bit_vector);
    assert((b & 63i64) == b % 64i64) by (bit_vector);
}

/// Both lines of a shift.
proof fn lemma_shift_effect(
    other: Base<Word, Heap>,
    funcs: Seq<Seq<char>>,
    strs: Seq<Seq<char>>,
    dst: nat,
    op: Op,
    a: OpndV,
    b: OpndV,
    env: Env,
    h: Heap,
    av: Word,
    bv: Word,
)
    requires
        op is Shl || op is AShr,
        value(other, env, opnd_word(strs.len(), b)) == bv,
        forall|v: Word|
            value(
                other,
                env.insert(aux_word(dst, ".m"@), v),
                #[trigger] second_word(strs, b, a),
            ) == av,
    ensures
        ({
            let m = if op is Shl {
                "shl"@
            } else {
                "ashr"@
            };
            let did = carry_on(other, funcs, shift_lines(strs, dst, m, a, b), 0, env, h);
            let d = machine_op(other, op, seq![av, bv], h);
            match bv {
                Word::Int(n) => did == after_def(
                    env.insert(aux_word(dst, ".m"@), Word::Int(n & 63i64)),
                    reg_word(dst),
                    d,
                ),
                _ => did == After::Stop(h) && d == Done::<Word, Heap>::Stop(h),
            }
        }),
{
    let m = if op is Shl {
        "shl"@
    } else {
        "ashr"@
    };
    let x = aux_word(dst, ".m"@);
    let bw = opnd_word(strs.len(), b);
    let aw = second_word(strs, b, a);
    let l1 = seq![x, "="@, "and"@, "i64"@, bw, "63"@];
    let r2 = seq![m, "i64"@, aw, x];
    lemma_carry_two(other, funcs, l1, def(dst) + r2, env, h);
    lemma_two_result(other, funcs, Op::And, bw, "63"@, env, h);
    let r1 = seq!["and"@, "i64"@, bw, "63"@];
    assert(l1 =~= seq![x, "="@] + r1);
    lemma_carry_def(other, funcs, l1, x, r1, env, h);
    lemma_small(other, env);
    if let Word::Int(n) = bv {
        let e = env.insert(x, Word::Int(n & 63i64));
        lemma_carry_def(other, funcs, def(dst) + r2, reg_word(dst), r2, e, h);
        lemma_mnemonics();
        reveal(result);
        assert(r2[0] == m && r2[1] == "i64"@ && r2[2] == aw && r2[3] == x);
        assert(value(other, e, aw) == av);
        reveal_strlit("%r");
        assert(x[0] == reg_word(dst)[0]);
        assert(reg_word(dst)[0] == '%');
        assert(value(other, e, x) == Word::Int(n & 63i64)) by {
            reveal(value);
        }
        lemma_masked(n);
    }
}

proof fn lemma_not_var(k: nat, v: OpndV)
    requires
        is_writable(v),
    ensures
        !is_var(opnd_word(k, v)),
{
    reveal_strlit("%r");
    reveal_strlit("@.s");
    reveal_strlit("true");
    reveal_strlit("false");
    reveal_strlit("null");
    match v {
        OpndV::Reg(r) => {
            assert(reg_word(r)[1] == 'r');
        },
        OpndV::Int(n) => {
            reveal_strlit("-");
            if n >= 0 {
                lemma_dec_solid(n as nat);
                assert('0' <= dec_text(n as nat)[0] <= '9');
            } else {
                assert(int_text(n as int)[0] == '-');
            }
        },
        OpndV::Size(n) => {
            lemma_dec_solid(n as nat);
            assert('0' <= dec_text(n as nat)[0] <= '9');
        },
        OpndV::Bool(b) => {
            assert("true"@[0] == 't');
            assert("false"@[0] == 'f');
        },
        OpndV::Float(t) => {},
        OpndV::Str(t) => {
            assert(str_word(k)[0] == '@');
        },
        OpndV::Null => {
            assert("null"@[0] == 'n');
        },
    }
}

/// The operands of a call.
proof fn lemma_operands(
    other: Base<Word, Heap>,
    env: Env,
    s: State<Word, Heap>,
    named: Set<nat>,
    before: Seq<Seq<char>>,
    strs: Seq<Seq<char>>,
    regs: Seq<IrTy>,
    args: Seq<OpndV>,
    i: int,
    ws: Line,
    j: int,
)
    requires
        agrees(other, env, s, named, strs),
        are_writable(args),
        are_named(named, args),
        starts(strs_with_all(before, args, i), strs),
        0 <= i <= args.len(),
        0 <= j <= ws.len(),
        ws.skip(j) == arg_words(before, regs, args, i),
    ensures
        operands(other, env, ws, j) == opnd_vals(on_machine(other), s, args).skip(i),
    decreases args.len() - i,
{
    let vals = opnd_vals(on_machine(other), s, args);
    if i == args.len() {
        assert(ws.skip(j).len() == 0);
        assert(operands(other, env, ws, j) =~= vals.skip(i));
    } else {
        let next = strs_with(before, args[i]);
        let rest = arg_words(next, regs, args, i + 1);
        let all = arg_words(before, regs, args, i);
        assert(all.len() == 2 + rest.len());
        assert(all[1] == opnd_word(before.len(), args[i]));
        assert(ws.skip(j).len() == ws.len() - j);
        assert(ws.skip(j)[1] == ws[j + 1]);
        assert(ws[j + 1] == opnd_word(before.len(), args[i]));
        assert(ws.skip(j + 2) =~= ws.skip(j).skip(2));
        assert(ws.skip(j).skip(2) =~= rest);
        lemma_starts_all(next, args, i + 1, strs);
        lemma_value(other, env, s, named, before, strs, args[i]);
        lemma_operands(other, env, s, named, next, strs, regs, args, i + 1, ws, j + 2);
        assert(vals.skip(i) =~= seq![vals[i]] + vals.skip(i + 1));
    }
}

pub proof fn lemma_starts_all(before: Seq<Seq<char>>, args: Seq<OpndV>, i: int, strs: Seq<Seq<char>>)
    requires
        starts(strs_with_all(before, args, i), strs),
        0 <= i <= args.len(),
    ensures
        starts(before, strs),
    decreases args.len() - i,
{
    if i < args.len() {
        lemma_starts_all(strs_with(before, args[i]), args, i + 1, strs);
        lemma_starts(before, args[i], strs);
    }
}

pub open spec fn are_named(named: Set<nat>, args: Seq<OpndV>) -> bool {
    forall|i: int| 0 <= i < args.len() ==> is_named(named, #[trigger] args[i])
}

/// The text of a call carries out the call.
pub proof fn lemma_call_result(
    other: Base<Word, Heap>,
    funcs: Seq<Seq<char>>,
    env: Env,
    s: State<Word, Heap>,
    named: Set<nat>,
    before: Seq<Seq<char>>,
    strs: Seq<Seq<char>>,
    regs: Seq<IrTy>,
    t: Seq<char>,
    name: Seq<char>,
    args: Seq<OpndV>,
)
    requires
        agrees(other, env, s, named, strs),
        are_writable(args),
        are_named(named, args),
        starts(strs_with_all(before, args, 0), strs),
    ensures
        result(
            other,
            funcs,
            seq!["call"@, t, name] + arg_words(before, regs, args, 0),
            env,
            s.w,
        ) == called(other, funcs, name, opnd_vals(on_machine(other), s, args), s.w),
{
    let front = seq!["call"@, t, name];
    let ws = front + arg_words(before, regs, args, 0);
    assert(ws.skip(3) =~= arg_words(before, regs, args, 0));
    lemma_operands(other, env, s, named, before, strs, regs, args, 0, ws, 3);
    let vals = opnd_vals(on_machine(other), s, args);
    assert(vals.skip(0) =~= vals);
    lemma_mnemonics();
    reveal(result);
    assert(ws[0] == "call"@ && ws[2] == name);
}


/// The registers that have a name, after an instruction. One that writes to memory has no
/// value, and so no name for it.
pub open spec fn named_after(named: Set<nat>, x: InstV) -> Set<nat> {
    match x {
        InstV::Op { dst, op, args } => match op {
            Op::SetVar(_) => named,
            Op::Store | Op::StoreByte => named.remove(dst),
            _ => named.insert(dst),
        },
        InstV::Call { dst, func, args } => named.insert(dst),
    }
}

/// Lines end as an instruction does: in the same memory, with the values in the names.
pub open spec fn follows(
    other: Base<Word, Heap>,
    did: After,
    would: Did<State<Word, Heap>>,
    named: Set<nat>,
    strs: Seq<Seq<char>>,
) -> bool {
    match (did, would) {
        (After::Go(e, h), Did::Go(t)) => h == t.w && agrees(other, e, t, named, strs),
        (After::Stop(h), Did::Stop(t)) => h == t.w,
        _ => false,
    }
}

/// An operation that can be written: it has its operands, sizes are no larger than a number of
/// the machine, fractions are not compared without a sign, and what is compared is of one kind.
pub open spec fn is_regular(regs: Seq<IrTy>, op: Op, args: Seq<OpndV>, vals: Seq<Word>) -> bool {
    &&& takes(op, args.len())
    &&& are_writable(args)
    &&& match op {
        Op::New(n) | Op::NewTagged(n) | Op::Slot(n) => n <= i64::MAX,
        Op::FCmp(pr) => !(pr is Below) && !(pr is AtLeast),
        Op::ICmp(_) => (vals[0] is Int && vals[1] is Int) || (is_place(vals[0]) && is_place(
            vals[1],
        ) && opnd_ty(regs, args[0]) is Ptr),
        _ => true,
    }
}

proof fn lemma_defines(
    other: Base<Word, Heap>,
    funcs: Seq<Seq<char>>,
    env: Env,
    s: State<Word, Heap>,
    named: Set<nat>,
    strs: Seq<Seq<char>>,
    dst: nat,
    rest: Line,
    d: Done<Word, Heap>,
)
    requires
        agrees(other, env, s, named, strs),
        rest.len() > 0,
        result(other, funcs, rest, env, s.w) == d,
    ensures
        follows(
            other,
            carry_on(other, funcs, seq![def(dst) + rest], 0, env, s.w),
            kept(s, dst, d),
            named.insert(dst),
            strs,
        ),
{
    lemma_carry_one(other, funcs, def(dst) + rest, env, s.w);
    lemma_carry_def(other, funcs, def(dst) + rest, reg_word(dst), rest, env, s.w);
    if let Done::Go(v, w) = d {
        lemma_set_reg(other, env, s, named, strs, dst, v, w);
    }
}

/// The value of the first operand.
proof fn lemma_first(
    other: Base<Word, Heap>,
    env: Env,
    s: State<Word, Heap>,
    named: Set<nat>,
    before: Seq<Seq<char>>,
    strs: Seq<Seq<char>>,
    a: OpndV,
    b: OpndV,
)
    requires
        agrees(other, env, s, named, strs),
        is_named(named, a),
        is_writable(a),
        is_named(named, b),
        is_writable(b),
        starts(strs_with(strs_with(before, a), b), strs),
    ensures
        value(other, env, opnd_word(before.len(), a)) == opnd_val(on_machine(other), s, a),
        value(other, env, second_word(before, a, b)) == opnd_val(on_machine(other), s, b),
{
    lemma_starts(strs_with(before, a), b, strs);
    lemma_value(other, env, s, named, before, strs, a);
    lemma_value(other, env, s, named, strs_with(before, a), strs, b);
}

proof fn lemma_shift_follows(
    other: Base<Word, Heap>,
    funcs: Seq<Seq<char>>,
    before: Seq<Seq<char>>,
    strs: Seq<Seq<char>>,
    dst: nat,
    op: Op,
    a: OpndV,
    b: OpndV,
    env: Env,
    s: State<Word, Heap>,
    named: Set<nat>,
)
    requires
        op is Shl || op is AShr,
        agrees(other, env, s, named, strs),
        is_named(named, a) && is_writable(a),
        is_named(named, b) && is_writable(b),
        starts(strs_with(strs_with(before, b), a), strs),
    ensures
        ({
            let m = if op is Shl {
                "shl"@
            } else {
                "ashr"@
            };
            let vals = seq![
                opnd_val(on_machine(other), s, a),
                opnd_val(on_machine(other), s, b),
            ];
            follows(
                other,
                carry_on(other, funcs, shift_lines(before, dst, m, a, b), 0, env, s.w),
                kept(s, dst, machine_op(other, op, vals, s.w)),
                named.insert(dst),
                strs,
            )
        }),
{
    let av = opnd_val(on_machine(other), s, a);
    let bv = opnd_val(on_machine(other), s, b);
    reveal_strlit(".m");
    assert(".m"@[0] == '.');
    lemma_first(other, env, s, named, before, strs, b, a);
    assert forall|v: Word|
        value(
            other,
            env.insert(aux_word(dst, ".m"@), v),
            #[trigger] second_word(before, b, a),
        ) == av by {
        lemma_set_aux(other, env, s, named, strs, dst, ".m"@, v);
        lemma_first(other, env.insert(aux_word(dst, ".m"@), v), s, named, before, strs, b, a);
    }
    lemma_shift_effect(other, funcs, before, dst, op, a, b, env, s.w, av, bv);
    if let Word::Int(n) = bv {
        let e = env.insert(aux_word(dst, ".m"@), Word::Int(n & 63i64));
        lemma_set_aux(other, env, s, named, strs, dst, ".m"@, Word::Int(n & 63i64));
        if let Done::Go(v, w) = machine_op(other, op, seq![av, bv], s.w) {
            lemma_set_reg(other, e, s, named, strs, dst, v, w);
        }
    }
}

proof fn lemma_load_byte_follows(
    other: Base<Word, Heap>,
    funcs: Seq<Seq<char>>,
    before: Seq<Seq<char>>,
    strs: Seq<Seq<char>>,
    dst: nat,
    a: OpndV,
    env: Env,
    s: State<Word, Heap>,
    named: Set<nat>,
)
    requires
        agrees(other, env, s, named, strs),
        is_named(named, a) && is_writable(a),
        starts(strs_with(before, a), strs),
    ensures
        follows(
            other,
            carry_on(
                other,
                funcs,
                load_byte_lines(dst, opnd_word(before.len(), a)),
                0,
                env,
                s.w,
            ),
            kept(
                s,
                dst,
                machine_op(
                    other,
                    Op::LoadByte,
                    seq![opnd_val(on_machine(other), s, a)],
                    s.w,
                ),
            ),
            named.insert(dst),
            strs,
        ),
{
    let av = opnd_val(on_machine(other), s, a);
    let aw = opnd_word(before.len(), a);
    lemma_value(other, env, s, named, before, strs, a);
    reveal_strlit(".b");
    assert(".b"@[0] == '.');
    let x = aux_word(dst, ".b"@);
    let r1 = seq!["load"@, "i8"@, "ptr"@, aw];
    let r2 = seq!["zext"@, "i8"@, x, "to"@, "i64"@];
    let l1 = seq![x, "="@, "load"@, "i8"@, "ptr"@, aw];
    assert(l1 =~= seq![x, "="@] + r1);
    lemma_carry_two(other, funcs, l1, def(dst) + r2, env, s.w);
    lemma_carry_def(other, funcs, l1, x, r1, env, s.w);
    lemma_mnemonics();
    lemma_widths();
    lemma_not_var(before.len(), a);
    let d = machine_op(other, Op::LoadByte, seq![av], s.w);
    assert(result(other, funcs, r1, env, s.w) == d) by {
        reveal(result);
        assert(r1[0] == "load"@ && r1[1] == "i8"@ && r1[3] == aw);
    }
    if let Done::Go(v, w) = d {
        assert(v is Int);
        let e = env.insert(x, v);
        lemma_set_aux(other, env, s, named, strs, dst, ".b"@, v);
        lemma_carry_def(other, funcs, def(dst) + r2, reg_word(dst), r2, e, w);
        reveal_strlit("%r");
        assert(x[0] == reg_word(dst)[0]);
        assert(reg_word(dst)[0] == '%');
        assert(result(other, funcs, r2, e, w) == Done::Go(v, w)) by {
            reveal(result);
            reveal(value);
            assert(r2[0] == "zext"@ && r2[1] == "i8"@ && r2[2] == x);
        }
        lemma_set_reg(other, e, s, named, strs, dst, v, w);
    }
}

pub proof fn lemma_carry_store(
    other: Base<Word, Heap>,
    funcs: Seq<Seq<char>>,
    t: Seq<char>,
    vw: Seq<char>,
    place: Seq<char>,
    env: Env,
    h: Heap,
)
    requires
        t.len() > 1,
    ensures
        carry_out(other, funcs, seq!["store"@, t, vw, "ptr"@, place], env, h) == (if is_var(
            place,
        ) {
            After::Go(env.insert(place, value(other, env, vw)), h)
        } else {
            match machine_op(
                other,
                if width(t) == 8 {
                    Op::StoreByte
                } else {
                    Op::Store
                },
                seq![value(other, env, place), value(other, env, vw)],
                h,
            ) {
                Done::Go(_, g) => After::Go(env, g),
                Done::Stop(g) => After::Stop(g),
            }
        }),
{
    reveal(carry_out);
    let ws = seq!["store"@, t, vw, "ptr"@, place];
    reveal_strlit("=");
    assert("="@.len() == 1);
    assert(ws[0] == "store"@ && ws[1] == t && ws[2] == vw && ws[4] == place);
}

pub proof fn lemma_ty_width(t: IrTy)
    ensures
        width(ty_text(t)) != 8,
        ty_text(t).len() > 1,
{
    lemma_widths();
    reveal_strlit("i64");
    reveal_strlit("i1");
    reveal_strlit("double");
    reveal_strlit("ptr");
    assert("i64"@.len() == 3);
    assert("i1"@.len() == 2);
}

proof fn lemma_store_byte_follows(
    other: Base<Word, Heap>,
    funcs: Seq<Seq<char>>,
    before: Seq<Seq<char>>,
    strs: Seq<Seq<char>>,
    dst: nat,
    a: OpndV,
    b: OpndV,
    env: Env,
    s: State<Word, Heap>,
    named: Set<nat>,
)
    requires
        agrees(other, env, s, named, strs),
        is_named(named, a) && is_writable(a),
        is_named(named, b) && is_writable(b),
        starts(strs_with(strs_with(before, b), a), strs),
    ensures
        follows(
            other,
            carry_on(
                other,
                funcs,
                store_byte_lines(dst, opnd_word(before.len(), b), second_word(before, b, a)),
                0,
                env,
                s.w,
            ),
            kept(
                s,
                dst,
                machine_op(
                    other,
                    Op::StoreByte,
                    seq![
                        opnd_val(on_machine(other), s, a),
                        opnd_val(on_machine(other), s, b),
                    ],
                    s.w,
                ),
            ),
            named.remove(dst),
            strs,
        ),
{
    let av = opnd_val(on_machine(other), s, a);
    let bv = opnd_val(on_machine(other), s, b);
    let bw = opnd_word(before.len(), b);
    let aw = second_word(before, b, a);
    lemma_first(other, env, s, named, before, strs, b, a);
    reveal_strlit(".b");
    assert(".b"@[0] == '.');
    let x = aux_word(dst, ".b"@);
    let r1 = seq!["trunc"@, "i64"@, bw, "to"@, "i8"@];
    let l1 = seq![x, "="@, "trunc"@, "i64"@, bw, "to"@, "i8"@];
    let l2 = seq!["store"@, "i8"@, x, "ptr"@, aw];
    assert(l1 =~= seq![x, "="@] + r1);
    lemma_carry_two(other, funcs, l1, l2, env, s.w);
    lemma_carry_def(other, funcs, l1, x, r1, env, s.w);
    lemma_mnemonics();
    lemma_widths();
    lemma_not_var(strs_with(before, b).len(), a);
    let d = machine_op(other, Op::StoreByte, seq![av, bv], s.w);
    let low = convert(other, Mn::Trunc, 64, bv, s.w);
    assert(result(other, funcs, r1, env, s.w) == low) by {
        reveal(result);
        assert(r1[0] == "trunc"@ && r1[1] == "i64"@ && r1[2] == bw);
    }
    if let Word::Int(n) = bv {
        let v = Word::Int((n as int % 256) as i64);
        let e = env.insert(x, v);
        lemma_set_aux(other, env, s, named, strs, dst, ".b"@, v);
        lemma_first(other, e, s, named, before, strs, b, a);
        reveal_strlit("i8");
        assert("i8"@.len() == 2);
        lemma_carry_store(other, funcs, "i8"@, x, aw, e, s.w);
        reveal_strlit("%r");
        assert(x[0] == reg_word(dst)[0]);
        assert(reg_word(dst)[0] == '%');
        assert(value(other, e, x) == v) by {
            reveal(value);
        }
        assert((n as int % 256) % 256 == n as int % 256);
        if let Done::Go(v2, w) = d {
            lemma_unname(other, e, s, named, strs, dst, v2, w);
        }
    }
}

/// The lines of an operation do what the operation does.
pub proof fn lemma_op_follows(
    other: Base<Word, Heap>,
    funcs: Seq<Seq<char>>,
    w: Around,
    before: Seq<Seq<char>>,
    strs: Seq<Seq<char>>,
    dst: nat,
    op: Op,
    args: Seq<OpndV>,
    env: Env,
    s: State<Word, Heap>,
    named: Set<nat>,
)
    requires
        agrees(other, env, s, named, strs),
        is_regular(w.regs, op, args, opnd_vals(on_machine(other), s, args)),
        are_named(named, args),
        starts(op_strs(before, op, args), strs),
    ensures
        follows(
            other,
            carry_on(other, funcs, op_lines(w, before, dst, op, args), 0, env, s.w),
            step(on_machine(other), s, InstV::Op { dst, op, args }),
            named_after(named, InstV::Op { dst, op, args }),
            strs,
        ),
{
    let vals = opnd_vals(on_machine(other), s, args);
    let a = arg(args, 0);
    let b = arg(args, 1);
    let aw = opnd_word(before.len(), a);
    let bw = opnd_word(before.len(), b);
    let d = machine_op(other, op, vals, s.w);
    if two_text(op) is Some {
        lemma_first(other, env, s, named, before, strs, a, b);
        assert(vals =~= seq![
            opnd_val(on_machine(other), s, a),
            opnd_val(on_machine(other), s, b),
        ]);
        let b2 = second_word(before, a, b);
        lemma_two_result(other, funcs, op, aw, b2, env, s.w);
        let rest = seq![two_words(op).0, two_words(op).1, aw, b2];
        lemma_defines(other, funcs, env, s, named, strs, dst, rest, d);
        assert(def(dst) + rest =~= op_lines(w, before, dst, op, args)[0]);
        assert(op_lines(w, before, dst, op, args) =~= seq![def(dst) + rest]);
    } else if one_text(op) is Some {
        lemma_value(other, env, s, named, before, strs, a);
        assert(vals =~= seq![opnd_val(on_machine(other), s, a)]);
        lemma_one_result(other, funcs, op, aw, env, s.w);
        let rest = one_words(op).0.push(aw) + one_words(op).1;
        lemma_defines(other, funcs, env, s, named, strs, dst, rest, d);
        assert(def(dst) + rest =~= one_line(dst, op, aw));
    } else {
        lemma_rest_follows(other, funcs, w, before, strs, dst, op, args, env, s, named);
    }
}

proof fn lemma_rest_follows(
    other: Base<Word, Heap>,
    funcs: Seq<Seq<char>>,
    w: Around,
    before: Seq<Seq<char>>,
    strs: Seq<Seq<char>>,
    dst: nat,
    op: Op,
    args: Seq<OpndV>,
    env: Env,
    s: State<Word, Heap>,
    named: Set<nat>,
)
    requires
        two_text(op) is None && one_text(op) is None,
        agrees(other, env, s, named, strs),
        is_regular(w.regs, op, args, opnd_vals(on_machine(other), s, args)),
        are_named(named, args),
        starts(op_strs(before, op, args), strs),
    ensures
        follows(
            other,
            carry_on(other, funcs, op_lines(w, before, dst, op, args), 0, env, s.w),
            step(on_machine(other), s, InstV::Op { dst, op, args }),
            named_after(named, InstV::Op { dst, op, args }),
            strs,
        ),
{
    let base = on_machine(other);
    let vals = opnd_vals(base, s, args);
    let a = arg(args, 0);
    let b = arg(args, 1);
    let aw = opnd_word(before.len(), a);
    let bw = opnd_word(before.len(), b);
    let b2 = second_word(before, a, b);
    let d = machine_op(other, op, vals, s.w);
    match op {
        Op::Shl | Op::AShr => {
            assert(vals =~= seq![opnd_val(base, s, a), opnd_val(base, s, b)]);
            lemma_shift_follows(other, funcs, before, strs, dst, op, a, b, env, s, named);
        },
        Op::ICmp(pr) => {
            lemma_first(other, env, s, named, before, strs, a, b);
            let rest = seq!["icmp"@, pred_text(pr), ty_text(opnd_ty(w.regs, a)), aw, b2];
            assert(vals[0] == opnd_val(base, s, a) && vals[1] == opnd_val(base, s, b));
            assert(result(other, funcs, rest, env, s.w) == d) by {
                lemma_mnemonics();
                lemma_widths();
                lemma_int_tests(pr, 0, 0);
                if vals[0] is Int && vals[1] is Int {
                    lemma_int_tests(pr, vals[0]->Int_0 as int, vals[1]->Int_0 as int);
                }
                reveal(result);
                assert(rest[0] == "icmp"@ && rest[1] == pred_text(pr) && rest[2] == ty_text(
                    opnd_ty(w.regs, a),
                ) && rest[3] == aw && rest[4] == b2);
            }
            lemma_defines(other, funcs, env, s, named, strs, dst, rest, d);
        },
        Op::FCmp(pr) => {
            lemma_first(other, env, s, named, before, strs, a, b);
            let rest = seq!["fcmp"@, float_pred_text(pr), "double"@, aw, b2];
            assert(vals =~= seq![opnd_val(base, s, a), opnd_val(base, s, b)]);
            assert(result(other, funcs, rest, env, s.w) == d) by {
                lemma_mnemonics();
                lemma_float_tests(pr);
                reveal(result);
                assert(rest[0] == "fcmp"@ && rest[1] == float_pred_text(pr) && rest[3] == aw
                    && rest[4] == b2);
            }
            lemma_defines(other, funcs, env, s, named, strs, dst, rest, d);
        },
        Op::Select => {
            let c = arg(args, 2);
            let two = strs_with(strs_with(before, a), b);
            lemma_starts(two, c, strs);
            lemma_first(other, env, s, named, before, strs, a, b);
            lemma_value(other, env, s, named, two, strs, c);
            let cw = opnd_word(two.len(), c);
            let rest = seq![
                "select"@,
                "i1"@,
                aw,
                ty_text(opnd_ty(w.regs, b)),
                b2,
                ty_text(opnd_ty(w.regs, c)),
                cw,
            ];
            assert(vals[0] == opnd_val(base, s, a) && vals[1] == opnd_val(base, s, b) && vals[2]
                == opnd_val(base, s, c));
            assert(result(other, funcs, rest, env, s.w) == d) by {
                lemma_mnemonics();
                reveal(result);
                assert(rest[0] == "select"@ && rest[2] == aw && rest[4] == b2 && rest[6] == cw);
            }
            lemma_defines(other, funcs, env, s, named, strs, dst, rest, d);
        },
        _ => {
            lemma_memory_follows(other, funcs, w, before, strs, dst, op, args, env, s, named);
        },
    }
}

proof fn lemma_memory_follows(
    other: Base<Word, Heap>,
    funcs: Seq<Seq<char>>,
    w: Around,
    before: Seq<Seq<char>>,
    strs: Seq<Seq<char>>,
    dst: nat,
    op: Op,
    args: Seq<OpndV>,
    env: Env,
    s: State<Word, Heap>,
    named: Set<nat>,
)
    requires
        two_text(op) is None && one_text(op) is None,
        !(op is Shl || op is AShr || op is ICmp || op is FCmp || op is Select),
        agrees(other, env, s, named, strs),
        is_regular(w.regs, op, args, opnd_vals(on_machine(other), s, args)),
        are_named(named, args),
        starts(op_strs(before, op, args), strs),
    ensures
        follows(
            other,
            carry_on(other, funcs, op_lines(w, before, dst, op, args), 0, env, s.w),
            step(on_machine(other), s, InstV::Op { dst, op, args }),
            named_after(named, InstV::Op { dst, op, args }),
            strs,
        ),
{
    let base = on_machine(other);
    let vals = opnd_vals(base, s, args);
    let a = arg(args, 0);
    let b = arg(args, 1);
    let aw = opnd_word(before.len(), a);
    let bw = opnd_word(before.len(), b);
    let b2 = second_word(before, a, b);
    let d = machine_op(other, op, vals, s.w);
    match op {
        Op::New(n) => {
            lemma_new_follows(other, funcs, "@lumo_new"@, n as nat, env, s.w);
            let rest = seq!["call"@, "ptr"@, "@lumo_new"@, "i64"@, dec_text(n as nat)];
            lemma_defines(other, funcs, env, s, named, strs, dst, rest, d);
        },
        Op::NewTagged(n) => {
            lemma_new_names();
            lemma_new_follows(other, funcs, "@lumo_new_tagged"@, n as nat, env, s.w);
            let rest = seq!["call"@, "ptr"@, "@lumo_new_tagged"@, "i64"@, dec_text(n as nat)];
            lemma_defines(other, funcs, env, s, named, strs, dst, rest, d);
        },
        Op::Slot(i) => {
            lemma_value(other, env, s, named, before, strs, a);
            lemma_dec_value(other, env, i as nat);
            let iw = dec_text(i as nat);
            let rest = seq!["getelementptr"@, "inbounds"@, "i64"@, "ptr"@, aw, "i64"@, iw];
            assert(vals[0] == opnd_val(base, s, a));
            assert(result(other, funcs, rest, env, s.w) == d) by {
                lemma_mnemonics();
                lemma_widths();
                reveal(result);
                assert(rest[0] == "getelementptr"@ && rest[2] == "i64"@ && rest[4] == aw && rest[6]
                    == iw);
            }
            lemma_defines(other, funcs, env, s, named, strs, dst, rest, d);
            assert(gep(dst, "i64"@, aw).push(iw) =~= def(dst) + rest);
        },
        Op::Offset => {
            lemma_first(other, env, s, named, before, strs, a, b);
            let rest = seq!["getelementptr"@, "inbounds"@, "i8"@, "ptr"@, aw, "i64"@, b2];
            assert(vals[0] == opnd_val(base, s, a) && vals[1] == opnd_val(base, s, b));
            assert(result(other, funcs, rest, env, s.w) == d) by {
                lemma_mnemonics();
                lemma_widths();
                reveal(result);
                assert(rest[0] == "getelementptr"@ && rest[2] == "i8"@ && rest[4] == aw && rest[6]
                    == b2);
            }
            lemma_defines(other, funcs, env, s, named, strs, dst, rest, d);
            assert(gep(dst, "i8"@, aw).push(b2) =~= def(dst) + rest);
        },
        Op::Load(t) => {
            lemma_value(other, env, s, named, before, strs, a);
            let rest = seq!["load"@, ty_text(t), "ptr"@, aw];
            assert(vals =~= seq![opnd_val(base, s, a)]);
            lemma_ty_width(t);
            lemma_not_var(before.len(), a);
            assert(result(other, funcs, rest, env, s.w) == d) by {
                lemma_mnemonics();
                reveal(result);
                assert(rest[0] == "load"@ && rest[1] == ty_text(t) && rest[3] == aw);
            }
            lemma_defines(other, funcs, env, s, named, strs, dst, rest, d);
        },
        Op::LoadByte => {
            assert(vals =~= seq![opnd_val(base, s, a)]);
            lemma_load_byte_follows(other, funcs, before, strs, dst, a, env, s, named);
        },
        _ => {
            lemma_write_follows(other, funcs, w, before, strs, dst, op, args, env, s, named);
        },
    }
}

proof fn lemma_write_follows(
    other: Base<Word, Heap>,
    funcs: Seq<Seq<char>>,
    w: Around,
    before: Seq<Seq<char>>,
    strs: Seq<Seq<char>>,
    dst: nat,
    op: Op,
    args: Seq<OpndV>,
    env: Env,
    s: State<Word, Heap>,
    named: Set<nat>,
)
    requires
        two_text(op) is None && one_text(op) is None,
        !(op is Shl || op is AShr || op is ICmp || op is FCmp || op is Select),
        !(op is New || op is NewTagged || op is Slot || op is Offset || op is Load || op is LoadByte),
        agrees(other, env, s, named, strs),
        is_regular(w.regs, op, args, opnd_vals(on_machine(other), s, args)),
        are_named(named, args),
        starts(op_strs(before, op, args), strs),
    ensures
        follows(
            other,
            carry_on(other, funcs, op_lines(w, before, dst, op, args), 0, env, s.w),
            step(on_machine(other), s, InstV::Op { dst, op, args }),
            named_after(named, InstV::Op { dst, op, args }),
            strs,
        ),
{
    let base = on_machine(other);
    let vals = opnd_vals(base, s, args);
    let a = arg(args, 0);
    let b = arg(args, 1);
    let aw = opnd_word(before.len(), a);
    let bw = opnd_word(before.len(), b);
    let b2 = second_word(before, a, b);
    let d = machine_op(other, op, vals, s.w);
    match op {
        Op::Store => {
            lemma_first(other, env, s, named, before, strs, b, a);
            assert(vals =~= seq![opnd_val(base, s, a), opnd_val(base, s, b)]);
            let t = opnd_ty(w.regs, b);
            let a2 = second_word(before, b, a);
            lemma_ty_width(t);
            lemma_not_var(strs_with(before, b).len(), a);
            lemma_carry_one(other, funcs, store_line(t, bw, a2), env, s.w);
            lemma_carry_store(other, funcs, ty_text(t), bw, a2, env, s.w);
            if let Done::Go(v, g) = d {
                lemma_unname(other, env, s, named, strs, dst, v, g);
            }
        },
        Op::StoreByte => {
            assert(vals =~= seq![opnd_val(base, s, a), opnd_val(base, s, b)]);
            lemma_store_byte_follows(other, funcs, before, strs, dst, a, b, env, s, named);
        },
        Op::GetVar(i) => {
            let t = ty_at(w.slots, i as int);
            let vw = var_word(i as nat);
            let rest = seq!["load"@, ty_text(t), "ptr"@, vw];
            let v = s.vars[i as nat];
            reveal_strlit("%v");
            assert(vw[0] == '%' && vw[1] == 'v');
            assert(result(other, funcs, rest, env, s.w) == Done::Go(v, s.w)) by {
                lemma_mnemonics();
                reveal(result);
                assert(rest[0] == "load"@ && rest[3] == vw);
            }
            lemma_defines(other, funcs, env, s, named, strs, dst, rest, Done::Go(v, s.w));
        },
        Op::SetVar(i) => {
            lemma_value(other, env, s, named, before, strs, a);
            let t = opnd_ty(w.regs, a);
            let vw = var_word(i as nat);
            reveal_strlit("%v");
            assert(vw[0] == '%' && vw[1] == 'v');
            lemma_ty_width(t);
            lemma_carry_one(other, funcs, store_line(t, aw, vw), env, s.w);
            lemma_carry_store(other, funcs, ty_text(t), aw, vw, env, s.w);
            lemma_set_var(other, env, s, named, strs, i as nat, opnd_val(base, s, a));
        },
        Op::Rt(f) => {
            let t = ty_text(ty_at(w.regs, dst as int));
            lemma_call_result(
                other,
                funcs,
                env,
                s,
                named,
                before,
                strs,
                w.regs,
                t,
                rt_word(f),
                args,
            );
            lemma_linked(f);
            let rest = seq!["call"@, t, rt_word(f)] + arg_words(before, w.regs, args, 0);
            lemma_defines(other, funcs, env, s, named, strs, dst, rest, d);
            assert(def(dst) + rest =~= call_line(before, w.regs, dst, rt_word(f), args));
        },
        _ => {},
    }
}

proof fn lemma_new_follows(
    other: Base<Word, Heap>,
    funcs: Seq<Seq<char>>,
    name: Seq<char>,
    n: nat,
    env: Env,
    h: Heap,
)
    requires
        name == "@lumo_new"@ || name == "@lumo_new_tagged"@,
        n <= i64::MAX,
        n <= usize::MAX,
    ensures
        result(other, funcs, seq!["call"@, "ptr"@, name, "i64"@, dec_text(n)], env, h)
            == machine_op(
            other,
            if name == "@lumo_new"@ {
                Op::New(n as usize)
            } else {
                Op::NewTagged(n as usize)
            },
            Seq::empty(),
            h,
        ),
{
    let ws = seq!["call"@, "ptr"@, name, "i64"@, dec_text(n)];
    lemma_new_names();
    lemma_mnemonics();
    lemma_dec_value(other, env, n);
    reveal(result);
    assert(ws[0] == "call"@ && ws[2] == name && ws[4] == dec_text(n));
    reveal_with_fuel(operands, 2);
    assert(operands(other, env, ws, 3)[0] == Word::Int(n as i64));
}

} // verus!
