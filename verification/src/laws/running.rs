//! The text of the instructions of a program does what the instructions do.
use vstd::prelude::*;
#[allow(unused_imports)]
use crate::assembly::{is_taken, name_at, say, say_def, say_inst, ty_at, ty_text, Around, Page};
#[allow(unused_imports)]
use crate::faithful::machine::{opnd_vals, step, State};
#[allow(unused_imports)]
use crate::ir::{InstV, Op, OpndV};
#[allow(unused_imports)]
use crate::laws::calls::{
    fn_word, lemma_name_word, name_text, names_are_told_apart, starts_fn,
};
#[allow(unused_imports)]
use crate::laws::effects::{
    are_named, follows, is_regular, lemma_call_result, lemma_carry_def, lemma_carry_one,
    lemma_op_follows, named_after,
};
#[allow(unused_imports)]
use crate::laws::emitted::reg_word;
#[allow(unused_imports)]
use crate::laws::instructions::{lemma_op_text, op_lines, op_strs};
#[allow(unused_imports)]
use crate::laws::lines::{page_read, Line};
#[allow(unused_imports)]
use crate::laws::llvm::{carry_on, defined, linked, Env};
#[allow(unused_imports)]
use crate::laws::names::{agrees, lemma_set_reg, starts};
#[allow(unused_imports)]
use crate::laws::phrases::def;
#[allow(unused_imports)]
use crate::laws::places::{
    are_writable, arg_words, call_line, lemma_call_back, lemma_call_front, strs_with_all,
};
#[allow(unused_imports)]
use crate::laws::vocabulary::lemma_linked_start;
#[allow(unused_imports)]
use crate::laws::wording::at_line;
#[allow(unused_imports)]
use crate::meaning::{Base, Done};
#[allow(unused_imports)]
use crate::memory::heap::{on_machine, Heap, Word};

verus! {

/// The words for the functions of a program.
pub open spec fn fn_words(funcs: Seq<Seq<char>>) -> Seq<Seq<char>> {
    Seq::new(funcs.len(), |i: int| fn_word(funcs[i]))
}

/// Functions of a program: no two have one name, and no name starts with `fn.`.
pub open spec fn are_funcs(funcs: Seq<Seq<char>>) -> bool {
    &&& forall|i: int| 0 <= i < funcs.len() ==> !starts_fn(#[trigger] funcs[i])
    &&& forall|i: int, j: int|
        0 <= i < j < funcs.len() ==> #[trigger] funcs[i] != #[trigger] funcs[j]
}

/// An instruction that can be written, and whose operands have names.
pub open spec fn is_written(
    other: Base<Word, Heap>,
    w: Around,
    s: State<Word, Heap>,
    named: Set<nat>,
    x: InstV,
) -> bool {
    match x {
        InstV::Op { dst, op, args } => are_named(named, args) && is_regular(
            w.regs,
            op,
            args,
            opnd_vals(on_machine(other), s, args),
        ),
        InstV::Call { dst, func, args } => are_named(named, args) && are_writable(args) && func
            < w.funcs.len(),
    }
}

/// The lines of an instruction.
pub open spec fn inst_lines(w: Around, strs: Seq<Seq<char>>, x: InstV) -> Seq<Line> {
    match x {
        InstV::Op { dst, op, args } => op_lines(w, strs, dst, op, args),
        InstV::Call { dst, func, args } => seq![
            call_line(strs, w.regs, dst, fn_word(name_at(w.funcs, func as int)), args),
        ],
    }
}

pub open spec fn inst_args(x: InstV) -> Seq<OpndV> {
    match x {
        InstV::Op { dst, op, args } => args,
        InstV::Call { dst, func, args } => args,
    }
}

pub open spec fn inst_strs(strs: Seq<Seq<char>>, x: InstV) -> Seq<Seq<char>> {
    match x {
        InstV::Op { dst, op, args } => op_strs(strs, op, args),
        InstV::Call { dst, func, args } => strs_with_all(strs, args, 0),
    }
}

pub proof fn lemma_inst_text(p: Page, lines: Seq<Line>, w: Around, x: InstV)
    requires
        at_line(p, lines),
        are_writable(inst_args(x)),
    ensures
        at_line(say_inst(p, w, x), lines + inst_lines(w, p.strs, x)),
        say_inst(p, w, x).strs == inst_strs(p.strs, x),
{
    match x {
        InstV::Op { dst, op, args } => {
            lemma_op_text(p, lines, w, dst, op, args);
        },
        InstV::Call { dst, func, args } => {
            let name = name_at(w.funcs, func as int);
            lemma_call_front(p, lines, w.regs, dst);
            let p1 = say(
                say(say(say_def(p, dst), "call "@), ty_text(ty_at(w.regs, dst as int))),
                " @"@,
            );
            let front = def(dst) + seq!["call"@, ty_text(ty_at(w.regs, dst as int))];
            lemma_name_word(p1, lines, front, name);
            reveal_strlit("@");
            lemma_call_back(
                crate::assembly::say_name(p1, name),
                lines,
                w.regs,
                dst,
                fn_word(name),
                args,
            );
            let ls = inst_lines(w, p.strs, x);
            assert(lines.push(ls[0]) =~= lines + ls);
        },
    }
}

proof fn lemma_defined(funcs: Seq<Seq<char>>, func: int, i: int)
    requires
        are_funcs(funcs),
        0 <= i <= func < funcs.len(),
    ensures
        defined(fn_words(funcs), fn_word(funcs[func]), i) == func,
    decreases func - i,
{
    let ws = fn_words(funcs);
    assert(ws[i] == fn_word(funcs[i]));
    if i < func {
        if ws[i] == fn_word(funcs[func]) {
            names_are_told_apart(funcs[i], funcs[func]);
        }
        lemma_defined(funcs, func, i + 1);
    }
}

/// No function of the program is taken for one that it is linked with.
proof fn lemma_not_linked(name: Seq<char>)
    ensures
        linked(fn_word(name)) is None,
        fn_word(name) != "@lumo_new"@,
        fn_word(name) != "@lumo_new_tagged"@,
{
    let w = fn_word(name);
    if linked(w) is Some || w == "@lumo_new"@ || w == "@lumo_new_tagged"@ {
        lemma_linked_start(w);
        reveal_strlit("@");
        reveal_strlit("\"fn.");
        reveal_strlit("\"");
        let t = name_text(name);
        assert(w[1] == t[0]);
        assert(w[2] == t[1] && w[3] == t[2] && w[4] == t[3] && w[5] == t[4]);
        if is_taken(name) {
            assert(t[0] == '"');
        } else if crate::assembly::is_plain(name) {
            assert(t == name);
        } else {
            assert(t[0] == '"');
        }
    }
}

pub proof fn lemma_inst_follows(
    other: Base<Word, Heap>,
    w: Around,
    before: Seq<Seq<char>>,
    strs: Seq<Seq<char>>,
    x: InstV,
    env: Env,
    s: State<Word, Heap>,
    named: Set<nat>,
)
    requires
        agrees(other, env, s, named, strs),
        is_written(other, w, s, named, x),
        are_funcs(w.funcs),
        starts(inst_strs(before, x), strs),
    ensures
        follows(
            other,
            carry_on(other, fn_words(w.funcs), inst_lines(w, before, x), 0, env, s.w),
            step(on_machine(other), s, x),
            named_after(named, x),
            strs,
        ),
{
    let fs = fn_words(w.funcs);
    match x {
        InstV::Op { dst, op, args } => {
            lemma_op_follows(other, fs, w, before, strs, dst, op, args, env, s, named);
        },
        InstV::Call { dst, func, args } => {
            let name = w.funcs[func as int];
            let t = ty_text(ty_at(w.regs, dst as int));
            let word = fn_word(name);
            lemma_call_result(other, fs, env, s, named, before, strs, w.regs, t, word, args);
            lemma_not_linked(name);
            lemma_defined(w.funcs, func as int, 0);
            let rest = seq!["call"@, t, word] + arg_words(before, w.regs, args, 0);
            let line = call_line(before, w.regs, dst, word, args);
            assert(line =~= def(dst) + rest);
            lemma_carry_one(other, fs, line, env, s.w);
            lemma_carry_def(other, fs, line, reg_word(dst), rest, env, s.w);
            let d = (other.call)(func, opnd_vals(on_machine(other), s, args), s.w);
            if let Done::Go(v, g) = d {
                lemma_set_reg(other, env, s, named, strs, dst, v, g);
            }
        },
    }
}

/// The lines that a page has more than another.
pub open spec fn lines_from(q: Page, p: Page) -> Seq<Line> {
    page_read(q).lines.skip(page_read(p).lines.len() as int)
}

/// What is written for an instruction does what the instruction does: run on names that hold
/// what registers, variables and string constants hold, the lines of its text end in the same
/// memory, and the names hold what they should again. So the text for a subtraction
/// subtracts, that for a comparison compares, that for a call calls the function it is of.
pub proof fn instructions_do_what_they_say(
    other: Base<Word, Heap>,
    p: Page,
    lines: Seq<Line>,
    w: Around,
    strs: Seq<Seq<char>>,
    x: InstV,
    env: Env,
    s: State<Word, Heap>,
    named: Set<nat>,
)
    requires
        at_line(p, lines),
        are_funcs(w.funcs),
        is_written(other, w, s, named, x),
        starts(say_inst(p, w, x).strs, strs),
        agrees(other, env, s, named, strs),
    ensures
        ({
            let q = say_inst(p, w, x);
            &&& at_line(q, lines + lines_from(q, p))
            &&& follows(
                other,
                carry_on(other, fn_words(w.funcs), lines_from(q, p), 0, env, s.w),
                step(on_machine(other), s, x),
                named_after(named, x),
                strs,
            )
        }),
{
    lemma_inst_text(p, lines, w, x);
    let ls = inst_lines(w, p.strs, x);
    assert((lines + ls).skip(lines.len() as int) =~= ls);
    lemma_inst_follows(other, w, p.strs, strs, x, env, s, named);
}

} // verus!
