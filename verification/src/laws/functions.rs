//! The text of a function runs as the function does.
use crate::ir::IrTy;
use vstd::prelude::*;
#[allow(unused_imports)]
use crate::assembly::{
    define_text, say, say_blocks, say_func, say_name, say_num, say_params, say_slots, say_spills,
    ty_text, Around, Page,
};
#[allow(unused_imports)]
use crate::blocks::FlatFuncV;
#[allow(unused_imports)]
use crate::faithful::machine::{machine, State};
#[allow(unused_imports)]
use crate::flow::run_block;
#[allow(unused_imports)]
use crate::laws::calls::{fn_word, lemma_in_quotes, lemma_name_word};
#[allow(unused_imports)]
use crate::laws::control::{
    block_word, block_writable, blocks_lines, blocks_strs, label_line, lemma_blocks_text,
};
#[allow(unused_imports)]
use crate::laws::effects::{lemma_carry_store, lemma_ty_width};
#[allow(unused_imports)]
use crate::laws::emitted::{
    lemma_same_text, said, said1, said2, said_end, said_newline, said_num, str_word, var_word,
};
#[allow(unused_imports)]
use crate::laws::jumps::{ends_alike, is_writable_run, lemma_blocks_run, lemma_label_char};
#[allow(unused_imports)]
use crate::laws::lines::{ended, in_word, is_solid, lemma_say, page_read, Line};
#[allow(unused_imports)]
use crate::laws::llvm::{behind_label, run_from, value, Env};
#[allow(unused_imports)]
use crate::laws::names::{agrees, lemma_kinds_differ, lemma_vars_differ, starts};
#[allow(unused_imports)]
use crate::laws::phrases::{lemma_gapped, lemma_then, lemma_ty_text, lemma_word};
#[allow(unused_imports)]
use crate::laws::running::{are_funcs, fn_words};
#[allow(unused_imports)]
use crate::laws::wording::{at_line, lemma_next, none};
#[allow(unused_imports)]
use crate::meaning::Base;
#[allow(unused_imports)]
use crate::memory::heap::{on_machine, Heap, Word};
#[allow(unused_imports)]
use crate::text::dec_text;

verus! {

/// The name of a parameter.
pub open spec fn param_word(i: nat) -> Seq<char> {
    "%p"@ + dec_text(i)
}

/// The parameters from `i` on, each behind its type.
pub open spec fn param_words(ts: Seq<IrTy>, i: int) -> Line
    decreases ts.len() - i,
{
    if !(0 <= i < ts.len()) {
        Seq::empty()
    } else {
        seq![ty_text(ts[i]), param_word(i as nat)] + param_words(ts, i + 1)
    }
}

/// How the first line of a function starts.
pub open spec fn define_words(name: Seq<char>) -> Line {
    if name == "main"@ {
        seq!["define"@]
    } else {
        seq!["define"@, "internal"@]
    }
}

pub open spec fn header(f: FlatFuncV) -> Line {
    define_words(f.name) + seq![ty_text(f.ret), fn_word(f.name)] + param_words(f.params, 0)
        + seq!["\"no-builtins\""@, "{"@]
}

/// Room for the variables from `i` on.
pub open spec fn room_lines(ts: Seq<IrTy>, i: int) -> Seq<Line>
    decreases ts.len() - i,
{
    if !(0 <= i < ts.len()) {
        Seq::empty()
    } else {
        seq![seq![var_word(i as nat), "="@, "alloca"@, ty_text(ts[i])]] + room_lines(ts, i + 1)
    }
}

pub open spec fn spill_line(t: IrTy, i: nat) -> Line {
    seq!["store"@, ty_text(t), param_word(i), "ptr"@, var_word(i)]
}

/// The parameters from `i` on, into their variables.
pub open spec fn spill_lines(ts: Seq<IrTy>, i: int) -> Seq<Line>
    decreases ts.len() - i,
{
    if !(0 <= i < ts.len()) {
        Seq::empty()
    } else {
        seq![spill_line(ts[i], i as nat)] + spill_lines(ts, i + 1)
    }
}

pub open spec fn jump_line() -> Line {
    seq!["br"@, "label"@, block_word(0)]
}

/// What is before the blocks of a function.
pub open spec fn prologue(f: FlatFuncV) -> Seq<Line> {
    seq![header(f), seq!["entry:"@]] + room_lines(f.slots, 0) + spill_lines(f.params, 0)
        + seq![jump_line()]
}

pub open spec fn around(f: FlatFuncV, funcs: Seq<Seq<char>>) -> Around {
    Around { regs: f.regs, slots: f.slots, ret: f.ret, funcs }
}

/// The lines of a function.
pub open spec fn func_lines(f: FlatFuncV, funcs: Seq<Seq<char>>, strs: Seq<Seq<char>>) -> Seq<Line> {
    prologue(f) + blocks_lines(around(f, funcs), strs, f.blocks, 0) + seq![seq!["}"@]]
}

proof fn lemma_params(
    p: Page,
    lines: Seq<Line>,
    words: Line,
    cur: Seq<char>,
    ts: Seq<IrTy>,
    i: int,
) -> (r: (Line, Seq<char>))
    requires
        page_read(p) == in_word(lines, words, cur),
        0 <= i <= ts.len(),
        i == 0 ==> cur.len() == 0,
        i > 0 ==> cur.len() > 0,
    ensures
        page_read(say_params(p, ts, i)) == in_word(lines, r.0, r.1),
        ended(r.0, r.1) == ended(words, cur) + param_words(ts, i),
        say_params(p, ts, i).strs == p.strs,
    decreases ts.len() - i,
{
    if i == ts.len() {
        assert(ended(words, cur) + param_words(ts, i) =~= ended(words, cur));
        (words, cur)
    } else {
        let q = if i == 0 {
            p
        } else {
            say(p, ", "@)
        };
        if i > 0 {
            lemma_next(p, lines, words, cur);
        } else {
            assert(cur =~= none());
        }
        let w1 = ended(words, cur);
        let t = ty_text(ts[i]);
        lemma_ty_text(ts[i]);
        lemma_word(q, lines, w1, t);
        reveal_strlit(" %p");
        reveal_strlit(" ");
        reveal_strlit("%p");
        assert(" %p"@ =~= " "@ + "%p"@);
        said(say(q, t), lines, w1, t, " %p"@, " "@, "%p"@);
        let p1 = say(say(q, t), " %p"@);
        said_num(p1, lines, w1.push(t), "%p"@, i as nat);
        let pw = param_word(i as nat);
        let r = lemma_params(say_num(p1, i as nat), lines, w1.push(t), pw, ts, i + 1);
        assert(w1.push(t).push(pw) + param_words(ts, i + 1) =~= w1 + param_words(ts, i));
        r
    }
}

proof fn lemma_header_end(p: Page, lines: Seq<Line>, words: Line, cur: Seq<char>)
    requires
        page_read(p) == in_word(lines, words, cur),
    ensures
        at_line(
            say(p, ") \"no-builtins\" {\nentry:\n"@),
            lines.push(ended(words, cur) + seq!["\"no-builtins\""@, "{"@]).push(
                seq!["entry:"@],
            ),
        ),
{
    reveal_strlit(") \"no-builtins\" {\nentry:\n");
    reveal_strlit(") ");
    reveal_strlit("\"no-builtins\"");
    reveal_strlit("\"");
    reveal_strlit("no-builtins");
    reveal_strlit("{");
    reveal_strlit("entry:");
    let s = ") \"no-builtins\" {\nentry:\n"@;
    let w1 = ended(words, cur);
    lemma_gapped(p, lines, words, cur, ") "@);
    let p1 = say(p, ") "@);
    let quoted = "\""@ + "no-builtins"@ + "\""@;
    assert(quoted =~= "\"no-builtins\""@);
    lemma_in_quotes(lines, w1, none(), "\""@, "no-builtins"@);
    lemma_say(p1, quoted);
    assert(none() + quoted =~= quoted);
    let p2 = say(p1, quoted);
    let e1 = seq![' '] + "{"@ + seq!['\n'];
    said_end(p2, lines, w1, quoted, e1, seq![' '], "{"@);
    let p3 = say(p2, e1);
    let l1 = w1.push(quoted).push("{"@);
    let e2 = none() + "entry:"@ + seq!['\n'];
    said_end(p3, lines.push(l1), Seq::empty(), none(), e2, none(), "entry:"@);
    assert(say(p3, e2).text =~= say(p, s).text);
    lemma_same_text(say(p3, e2), say(p, s));
    assert(l1 =~= w1 + seq!["\"no-builtins\""@, "{"@]);
    assert(Seq::<Seq<char>>::empty().push("entry:"@) =~= seq!["entry:"@]);
}

proof fn lemma_room(p: Page, lines: Seq<Line>, ts: Seq<IrTy>, i: int)
    requires
        at_line(p, lines),
        0 <= i,
    ensures
        at_line(say_slots(p, ts, i), lines + room_lines(ts, i)),
        say_slots(p, ts, i).strs == p.strs,
    decreases ts.len() - i,
{
    if i < ts.len() {
        reveal_strlit("  %v");
        reveal_strlit("  ");
        reveal_strlit("%v");
        reveal_strlit(" = alloca ");
        reveal_strlit(" ");
        reveal_strlit("=");
        reveal_strlit("alloca");
        let vw = var_word(i as nat);
        assert("  %v"@ =~= "  "@ + "%v"@);
        said(p, lines, Seq::empty(), none(), "  %v"@, "  "@, "%v"@);
        let p1 = say(p, "  %v"@);
        said_num(p1, lines, Seq::empty(), "%v"@, i as nat);
        let p2 = say_num(p1, i as nat);
        assert(" = alloca "@ =~= " "@ + "="@ + seq![' '] + "alloca"@ + seq![' '] + none());
        said2(p2, lines, Seq::empty(), vw, " = alloca "@, " "@, "="@, "alloca"@, none());
        let w1 = Seq::<Seq<char>>::empty().push(vw).push("="@).push("alloca"@);
        let p3 = say(p2, " = alloca "@);
        let t = ty_text(ts[i]);
        lemma_ty_text(ts[i]);
        lemma_word(p3, lines, w1, t);
        said_newline(say(p3, t), lines, w1, t);
        let l = seq![vw, "="@, "alloca"@, t];
        assert(w1.push(t) =~= l);
        lemma_room(say(say(p3, t), "\n"@), lines.push(l), ts, i + 1);
        assert(lines.push(l) + room_lines(ts, i + 1) =~= lines + room_lines(ts, i));
    } else {
        assert(lines + room_lines(ts, i) =~= lines);
    }
}

proof fn lemma_spills(p: Page, lines: Seq<Line>, ts: Seq<IrTy>, i: int)
    requires
        at_line(p, lines),
        0 <= i,
    ensures
        at_line(say_spills(p, ts, i), lines + spill_lines(ts, i)),
        say_spills(p, ts, i).strs == p.strs,
    decreases ts.len() - i,
{
    if i < ts.len() {
        reveal_strlit("  store ");
        reveal_strlit("  ");
        reveal_strlit("store");
        reveal_strlit(" %p");
        reveal_strlit(" ");
        reveal_strlit("%p");
        reveal_strlit(", ptr %v");
        reveal_strlit(", ");
        reveal_strlit("ptr");
        reveal_strlit("%v");
        assert("  store "@ =~= "  "@ + "store"@ + seq![' ']);
        lemma_then(p, lines, Seq::empty(), none(), "  store "@, "  "@, "store"@);
        let w1 = Seq::<Seq<char>>::empty().push("store"@);
        let p1 = say(p, "  store "@);
        let t = ty_text(ts[i]);
        lemma_ty_text(ts[i]);
        lemma_word(p1, lines, w1, t);
        assert(" %p"@ =~= " "@ + "%p"@);
        said(say(p1, t), lines, w1, t, " %p"@, " "@, "%p"@);
        let p2 = say(say(p1, t), " %p"@);
        let pw = param_word(i as nat);
        said_num(p2, lines, w1.push(t), "%p"@, i as nat);
        let p3 = say_num(p2, i as nat);
        assert(", ptr %v"@ =~= ", "@ + "ptr"@ + seq![' '] + "%v"@);
        said1(p3, lines, w1.push(t), pw, ", ptr %v"@, ", "@, "ptr"@, "%v"@);
        let w2 = w1.push(t).push(pw).push("ptr"@);
        let p4 = say(p3, ", ptr %v"@);
        let vw = var_word(i as nat);
        said_num(p4, lines, w2, "%v"@, i as nat);
        said_newline(say_num(p4, i as nat), lines, w2, vw);
        let l = spill_line(ts[i], i as nat);
        assert(w2.push(vw) =~= l);
        lemma_spills(say(say_num(p4, i as nat), "\n"@), lines.push(l), ts, i + 1);
        assert(lines.push(l) + spill_lines(ts, i + 1) =~= lines + spill_lines(ts, i));
    } else {
        assert(lines + spill_lines(ts, i) =~= lines);
    }
}

proof fn lemma_define(p: Page, lines: Seq<Line>, f: FlatFuncV)
    requires
        at_line(p, lines),
    ensures
        page_read(say_name(say(say(say(p, define_text(f.name)), ty_text(f.ret)), " @"@), f.name))
            == in_word(lines, define_words(f.name) + seq![ty_text(f.ret)], fn_word(f.name)),
{
    reveal_strlit("define ");
    reveal_strlit("define internal ");
    reveal_strlit("define");
    reveal_strlit("internal");
    reveal_strlit(" @");
    reveal_strlit(" ");
    reveal_strlit("@");
    let d = define_words(f.name);
    let p1 = say(p, define_text(f.name));
    if f.name == "main"@ {
        assert("define "@ =~= none() + "define"@ + seq![' ']);
        lemma_then(p, lines, Seq::empty(), none(), "define "@, none(), "define"@);
        assert(Seq::<Seq<char>>::empty().push("define"@) =~= d);
    } else {
        assert("define internal "@ =~= none() + "define"@ + seq![' '] + "internal"@ + seq![' ']
            + none());
        said2(
            p,
            lines,
            Seq::empty(),
            none(),
            "define internal "@,
            none(),
            "define"@,
            "internal"@,
            none(),
        );
        assert(Seq::<Seq<char>>::empty().push("define"@).push("internal"@) =~= d);
    }
    let t = ty_text(f.ret);
    lemma_ty_text(f.ret);
    lemma_word(p1, lines, d, t);
    let p2 = say(p1, t);
    assert(" @"@ =~= " "@ + "@"@);
    said(p2, lines, d, t, " @"@, " "@, "@"@);
    assert(d.push(t) =~= d + seq![t]);
    lemma_name_word(say(p2, " @"@), lines, d + seq![t], f.name);
}

/// All blocks of a function can be written.
pub open spec fn func_writable(f: FlatFuncV) -> bool {
    forall|k: int| 0 <= k < f.blocks.len() ==> block_writable(#[trigger] f.blocks[k])
}

pub proof fn lemma_func_text(p: Page, lines: Seq<Line>, f: FlatFuncV, funcs: Seq<Seq<char>>)
    requires
        at_line(p, lines),
        func_writable(f),
    ensures
        at_line(say_func(p, f, funcs), lines + func_lines(f, funcs, p.strs)),
        say_func(p, f, funcs).strs == blocks_strs(p.strs, f.blocks, 0),
{
    reveal_strlit("(");
    reveal_strlit("  br label %b0\n");
    reveal_strlit("  ");
    reveal_strlit("br");
    reveal_strlit("label");
    reveal_strlit("%b");
    reveal_strlit("}\n");
    reveal_strlit("}");
    let w = around(f, funcs);
    lemma_define(p, lines, f);
    let p0 = say(say(say(p, define_text(f.name)), ty_text(f.ret)), " @"@);
    crate::laws::calls::lemma_say_name(p0, f.name);
    let p1 = say_name(p0, f.name);
    let d = define_words(f.name) + seq![ty_text(f.ret)];
    let name = fn_word(f.name);
    reveal_strlit("@");
    lemma_gapped(p1, lines, d, name, "("@);
    let p2 = say(p1, "("@);
    let (rw, rc) = lemma_params(p2, lines, d.push(name), none(), f.params, 0);
    let p3 = say_params(p2, f.params, 0);
    lemma_header_end(p3, lines, rw, rc);
    assert(ended(rw, rc) + seq!["\"no-builtins\""@, "{"@] =~= header(f));
    let p4 = say(p3, ") \"no-builtins\" {\nentry:\n"@);
    let l4 = lines.push(header(f)).push(seq!["entry:"@]);
    lemma_room(p4, l4, f.slots, 0);
    let p5 = say_slots(p4, f.slots, 0);
    let l5 = l4 + room_lines(f.slots, 0);
    lemma_spills(p5, l5, f.params, 0);
    let p6 = say_spills(p5, f.params, 0);
    let l6 = l5 + spill_lines(f.params, 0);
    let b0 = block_word(0);
    reveal_with_fuel(dec_text, 2);
    assert(b0 =~= "%b"@ + seq!['0']);
    let s1 = "  "@ + "br"@ + seq![' '] + "label"@ + seq![' '] + b0;
    assert(is_solid(b0));
    said2(p6, l6, Seq::empty(), none(), s1, "  "@, "br"@, "label"@, b0);
    let w1 = Seq::<Seq<char>>::empty().push("br"@).push("label"@);
    said_newline(say(p6, s1), l6, w1, b0);
    reveal_strlit("\n");
    let p7 = say(p6, "  br label %b0\n"@);
    assert(say(say(p6, s1), "\n"@).text =~= p7.text);
    lemma_same_text(say(say(p6, s1), "\n"@), p7);
    assert(w1.push(b0) =~= jump_line());
    let l7 = l6.push(jump_line());
    lemma_blocks_text(p7, l7, w, f.blocks, 0);
    let p8 = say_blocks(p7, w, f.blocks, 0);
    let l8 = l7 + blocks_lines(w, p.strs, f.blocks, 0);
    assert("}\n"@ =~= none() + "}"@ + seq!['\n']);
    said_end(p8, l8, Seq::empty(), none(), "}\n"@, none(), "}"@);
    assert(Seq::<Seq<char>>::empty().push("}"@) =~= seq!["}"@]);
    assert(l8.push(seq!["}"@]) =~= lines + func_lines(f, funcs, p.strs));
}


// Running it.

/// The names that a function starts with: its parameters, its string constants, and whatever
/// its other variables hold.
pub open spec fn enters(
    other: Base<Word, Heap>,
    env: Env,
    s: State<Word, Heap>,
    done: nat,
    params: nat,
    strs: Seq<Seq<char>>,
) -> bool {
    &&& forall|i: nat| done <= i < params ==> env[#[trigger] param_word(i)] == s.vars[i]
    &&& forall|i: nat| i < done || params <= i ==> env[#[trigger] var_word(i)] == s.vars[i]
    &&& forall|k: nat|
        k < strs.len() ==> env[#[trigger] str_word(k)] == (other.konst)(
            crate::ir::OpndV::Str(strs[k as int]),
        )
}

proof fn lemma_param_differs(i: nat, j: nat)
    ensures
        param_word(i) != var_word(j),
{
    reveal_strlit("%p");
    reveal_strlit("%v");
    assert(param_word(i)[1] == 'p');
    assert(var_word(j)[1] == 'v');
}

proof fn lemma_room_runs(
    other: Base<Word, Heap>,
    fs: Seq<Seq<char>>,
    body: Seq<Line>,
    k: int,
    ts: Seq<IrTy>,
    i: int,
    env: Env,
    h: Heap,
    fuel: nat,
)
    requires
        0 <= k,
        0 <= i <= ts.len(),
        k + room_lines(ts, i).len() <= body.len(),
        forall|j: int|
            0 <= j < room_lines(ts, i).len() ==> body[k + j] == #[trigger] room_lines(ts, i)[j],
    ensures
        run_from(other, fs, body, k, env, h, fuel) == run_from(
            other,
            fs,
            body,
            k + room_lines(ts, i).len(),
            env,
            h,
            fuel,
        ),
    decreases ts.len() - i,
{
    if i < ts.len() {
        let ls = room_lines(ts, i);
        let rest = room_lines(ts, i + 1);
        let l = seq![var_word(i as nat), "="@, "alloca"@, ty_text(ts[i])];
        assert(ls[0] == l);
        assert(body[k + 0] == ls[0]);
        assert(body[k] == l);
        assert(l[1] == "="@ && l[2] == "alloca"@);
        assert forall|j: int| 0 <= j < rest.len() implies body[k + 1 + j] == #[trigger] rest[j] by {
            assert(ls[1 + j] == rest[j]);
            assert(body[k + (1 + j)] == ls[1 + j]);
        }
        lemma_room_runs(other, fs, body, k + 1, ts, i + 1, env, h, fuel);
    }
}

proof fn lemma_spills_run(
    other: Base<Word, Heap>,
    fs: Seq<Seq<char>>,
    body: Seq<Line>,
    k: int,
    ts: Seq<IrTy>,
    i: int,
    env: Env,
    s: State<Word, Heap>,
    strs: Seq<Seq<char>>,
    fuel: nat,
) -> (e: Env)
    requires
        0 <= k,
        0 <= i <= ts.len(),
        k + spill_lines(ts, i).len() <= body.len(),
        forall|j: int|
            0 <= j < spill_lines(ts, i).len() ==> body[k + j] == #[trigger] spill_lines(ts, i)[j],
        enters(other, env, s, i as nat, ts.len(), strs),
    ensures
        run_from(other, fs, body, k, env, s.w, fuel) == run_from(
            other,
            fs,
            body,
            k + spill_lines(ts, i).len(),
            e,
            s.w,
            fuel,
        ),
        enters(other, e, s, ts.len(), ts.len(), strs),
    decreases ts.len() - i,
{
    if i < ts.len() {
        let n = i as nat;
        let ls = spill_lines(ts, i);
        let rest = spill_lines(ts, i + 1);
        let l = spill_line(ts[i], n);
        assert(ls[0] == l);
        assert(body[k + 0] == ls[0]);
        assert(body[k] == l);
        lemma_ty_width(ts[i]);
        assert(l[0] == "store"@ && l[1] == ty_text(ts[i]));
        assert(crate::laws::blockruns::is_step(l));
        crate::laws::blockruns::lemma_is_step(l);
        reveal_strlit("%p");
        reveal_strlit("%v");
        let pw = param_word(n);
        let vw = var_word(n);
        assert(pw[0] == '%');
        assert(vw[0] == '%' && vw[1] == 'v');
        lemma_carry_store(other, fs, ty_text(ts[i]), pw, vw, env, s.w);
        assert(value(other, env, pw) == env[pw]) by {
            reveal(value);
        }
        let e = env.insert(vw, env[pw]);
        assert(env[pw] == s.vars[n]);
        assert(enters(other, e, s, n + 1, ts.len(), strs)) by {
            assert forall|j: nat| n + 1 <= j < ts.len() implies e[#[trigger] param_word(j)]
                == s.vars[j] by {
                lemma_param_differs(j, n);
            }
            assert forall|j: nat| j < n + 1 || ts.len() <= j implies e[#[trigger] var_word(j)]
                == s.vars[j] by {
                if j != n {
                    lemma_vars_differ(j, n);
                }
            }
            assert forall|c: nat| c < strs.len() implies e[#[trigger] str_word(c)] == (
            other.konst)(crate::ir::OpndV::Str(strs[c as int])) by {
                lemma_kinds_differ(0, n, c);
            }
        }
        assert forall|j: int| 0 <= j < rest.len() implies body[k + 1 + j] == #[trigger] rest[j] by {
            assert(ls[1 + j] == rest[j]);
            assert(body[k + (1 + j)] == ls[1 + j]);
        }
        lemma_spills_run(other, fs, body, k + 1, ts, i + 1, e, s, strs, fuel)
    } else {
        env
    }
}

/// What stands before the blocks are no labels of blocks.
proof fn lemma_prologue(f: FlatFuncV, j: int, c: nat)
    requires
        0 <= j < prologue(f).len(),
    ensures
        prologue(f)[j] != label_line(c),
{
    lemma_label_char(c);
    let a = room_lines(f.slots, 0);
    let b = spill_lines(f.params, 0);
    lemma_room_len(f.slots, 0);
    lemma_spill_len(f.params, 0);
    reveal_strlit("entry:");
    assert("entry:"@[0] == 'e');
    let l = prologue(f)[j];
    if j == 0 {
        assert(l == header(f));
        assert(l.len() >= 4);
    } else if j == 1 {
        assert(l == seq!["entry:"@]);
        assert(l[0][0] == 'e');
    } else if j < 2 + a.len() {
        assert(l == a[j - 2]);
    } else if j < 2 + a.len() + b.len() {
        assert(l == b[j - 2 - a.len()]);
    } else {
        assert(l == jump_line());
    }
}

pub proof fn lemma_room_len(ts: Seq<IrTy>, i: int)
    ensures
        forall|j: int| 0 <= j < room_lines(ts, i).len() ==> (#[trigger] room_lines(ts, i)[j]).len() == 4,
        forall|j: int|
            0 <= j < room_lines(ts, i).len() ==> (#[trigger] room_lines(ts, i)[j])[1] == "="@,
    decreases ts.len() - i,
{
    if 0 <= i < ts.len() {
        lemma_room_len(ts, i + 1);
        let rest = room_lines(ts, i + 1);
        let l = seq![var_word(i as nat), "="@, "alloca"@, ty_text(ts[i])];
        assert forall|j: int| 0 <= j < room_lines(ts, i).len() implies (#[trigger] room_lines(
            ts,
            i,
        )[j]).len() == 4 && room_lines(ts, i)[j][1] == "="@ by {
            if j > 0 {
                assert(room_lines(ts, i)[j] == rest[j - 1]);
            } else {
                assert(room_lines(ts, i)[j] == l);
            }
        }
    }
}

pub proof fn lemma_spill_len(ts: Seq<IrTy>, i: int)
    ensures
        forall|j: int|
            0 <= j < spill_lines(ts, i).len() ==> (#[trigger] spill_lines(ts, i)[j]).len() == 5,
        forall|j: int|
            0 <= j < spill_lines(ts, i).len() ==> (#[trigger] spill_lines(ts, i)[j])[0] == "store"@,
    decreases ts.len() - i,
{
    if 0 <= i < ts.len() {
        lemma_spill_len(ts, i + 1);
        let rest = spill_lines(ts, i + 1);
        assert forall|j: int| 0 <= j < spill_lines(ts, i).len() implies (#[trigger] spill_lines(
            ts,
            i,
        )[j]).len() == 5 && spill_lines(ts, i)[j][0] == "store"@ by {
            if j > 0 {
                assert(spill_lines(ts, i)[j] == rest[j - 1]);
            } else {
                assert(spill_lines(ts, i)[j] == spill_line(ts[i], i as nat));
            }
        }
    }
}

/// The lines of a function, run from its entry, end as its blocks do from the first on.
pub proof fn lemma_func_runs(
    other: Base<Word, Heap>,
    f: FlatFuncV,
    funcs: Seq<Seq<char>>,
    before: Seq<Seq<char>>,
    strs: Seq<Seq<char>>,
    env: Env,
    s: State<Word, Heap>,
    fuel: nat,
)
    requires
        are_funcs(funcs),
        starts(blocks_strs(before, f.blocks, 0), strs),
        enters(other, env, s, 0, f.params.len(), strs),
        is_writable_run(other, around(f, funcs), f.blocks, 0, s, Set::empty(), (fuel + 1) as nat),
    ensures
        ({
            let body = func_lines(f, funcs, before);
            ends_alike(
                other,
                run_from(
                    other,
                    fn_words(funcs),
                    body,
                    behind_label(body, "%entry"@, 0),
                    env,
                    s.w,
                    (fuel + 1) as nat,
                ),
                run_block(machine(on_machine(other)), f.blocks, 0, s, (fuel + 1) as nat),
            )
        }),
{
    let body = func_lines(f, funcs, before);
    let fs = fn_words(funcs);
    let w = around(f, funcs);
    let front = prologue(f);
    let back = seq![seq!["}"@]];
    let a = room_lines(f.slots, 0);
    let b = spill_lines(f.params, 0);
    reveal_strlit("%entry");
    reveal_strlit("entry:");
    assert("%entry"@.skip(1).push(':') =~= "entry:"@);
    assert(front[0] == header(f));
    assert(front[1] == seq!["entry:"@]);
    assert(body[0] == front[0]);
    assert(body[1] == front[1]);
    assert(header(f).len() >= 4);
    let label = seq!["%entry"@.skip(1).push(':')];
    assert(label =~= body[1]);
    assert(body[0] != label) by {
        assert(label.len() == 1);
    }
    reveal_with_fuel(behind_label, 3);
    assert(behind_label(body, "%entry"@, 0) == 2);
    assert forall|j: int| 0 <= j < a.len() implies body[2 + j] == #[trigger] a[j] by {
        assert(front[2 + j] == a[j]);
        assert(body[2 + j] == front[2 + j]);
    }
    lemma_room_runs(other, fs, body, 2, f.slots, 0, env, s.w, (fuel + 1) as nat);
    let k = (2 + a.len()) as int;
    assert forall|j: int| 0 <= j < b.len() implies body[k + j] == #[trigger] b[j] by {
        assert(front[k + j] == b[j]);
        assert(body[k + j] == front[k + j]);
    }
    let e = lemma_spills_run(other, fs, body, k, f.params, 0, env, s, strs, (fuel + 1) as nat);
    assert(agrees(other, e, s, Set::empty(), strs));
    let at = k + b.len();
    assert(front[at as int] == jump_line());
    assert(body[at as int] == jump_line());
    let t = crate::blocks::TermV::Jump(0);
    crate::laws::blockruns::lemma_blocks_grow(before, f.blocks, 0, strs);
    crate::laws::jumps::lemma_leads(other, w, before, strs, t, e, s, Set::empty());
    assert(crate::laws::control::term_lines(w, before, t)[0] == jump_line());
    assert forall|j: int, c: nat| 0 <= j < front.len() implies #[trigger] front[j]
        != #[trigger] label_line(c) by {
        lemma_prologue(f, j, c);
    }
    lemma_blocks_run(
        other,
        w,
        before,
        strs,
        f.blocks,
        0,
        body,
        front,
        back,
        e,
        s,
        Set::empty(),
        fuel,
    );
}

} // verus!
