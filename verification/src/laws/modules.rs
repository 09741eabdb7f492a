//! The text of a program runs as the program does.
use crate::ir::{IrTy, Rt};
use vstd::prelude::*;
use vstd::utf8::*;
#[allow(unused_imports)]
use crate::assembly::{
    all_rts, module_text, names_of, rt_sig, rt_text, say, say_bytes, say_decls, say_func, say_funcs,
    say_num, say_strs, say_types, ty_text, Around, Page,
};
#[allow(unused_imports)]
use crate::blocks::{BlockV, FlatFuncV};
#[allow(unused_imports)]
use crate::faithful::machine::{machine, State};
#[allow(unused_imports)]
use crate::flow::run_block;
#[allow(unused_imports)]
use crate::laws::blockruns::{is_step, lemma_blocks_grow, lemma_insts_steps};
#[allow(unused_imports)]
use crate::laws::calls::{
    bytes_are_read_as_they_are_written, bytes_text, bytes_written, fn_word, lemma_in_quotes,
    lemma_say_bytes, names_are_told_apart,
};
#[allow(unused_imports)]
use crate::laws::control::{
    block_lines, block_strs, blocks_lines, blocks_strs, insts_lines, insts_strs, label_line,
    term_lines,
};
#[allow(unused_imports)]
use crate::laws::emitted::{
    lemma_same_text, said, said1, said2, said_end, said_newline, said_num, said_on, str_word,
};
#[allow(unused_imports)]
use crate::laws::functions::{
    around, enters, func_lines, func_writable, header, jump_line, lemma_func_runs, lemma_func_text,
    lemma_room_len, lemma_spill_len, prologue, room_lines, spill_lines,
};
#[allow(unused_imports)]
use crate::laws::jumps::{ends_alike, is_writable_run, lemma_label_char};
#[allow(unused_imports)]
use crate::laws::lines::{ended, in_word, is_solid, lemma_say, lines_of, page_read, Line};
#[allow(unused_imports)]
use crate::laws::llvm::{behind_label, run_from, Env};
#[allow(unused_imports)]
use crate::laws::names::starts;
#[allow(unused_imports)]
use crate::laws::phrases::{lemma_gapped, lemma_number, lemma_then, lemma_ty_text, lemma_word};
#[allow(unused_imports)]
use crate::laws::running::{are_funcs, fn_words};
#[allow(unused_imports)]
use crate::laws::vocabulary::lemma_rt_solid;
#[allow(unused_imports)]
use crate::laws::wording::{at_line, lemma_next, none};
#[allow(unused_imports)]
use crate::meaning::Base;
#[allow(unused_imports)]
use crate::memory::heap::{on_machine, Heap, Word};
#[allow(unused_imports)]
use crate::text::{byte_len, dec_text};

verus! {

// Finding a function.

/// The first line of the function that a word names.
pub open spec fn is_define(ws: Line, word: Seq<char>) -> bool {
    ws.len() >= 4 && ws[0] == "define"@ && ws[1] != "="@ && (if ws[1] == "internal"@ {
        ws[3] == word
    } else {
        ws[2] == word
    })
}

/// The index of that line, from `i` on.
pub open spec fn define_at(all: Seq<Line>, word: Seq<char>, i: int) -> int
    decreases all.len() - i,
{
    if !(0 <= i < all.len()) || is_define(all[i], word) {
        i
    } else {
        define_at(all, word, i + 1)
    }
}

/// The index of the closing brace, from `i` on.
pub open spec fn closing(all: Seq<Line>, i: int) -> int
    decreases all.len() - i,
{
    if !(0 <= i < all.len()) || all[i] == seq!["}"@] {
        i
    } else {
        closing(all, i + 1)
    }
}

/// The lines of the function that a word names.
pub open spec fn body_of(all: Seq<Line>, word: Seq<char>) -> Seq<Line> {
    let start = define_at(all, word, 0);
    all.subrange(start, closing(all, start) + 1)
}

proof fn lemma_define_at(all: Seq<Line>, word: Seq<char>, i: int, at: int)
    requires
        0 <= i <= at < all.len(),
        is_define(all[at], word),
        forall|j: int| i <= j < at ==> !is_define(#[trigger] all[j], word),
    ensures
        define_at(all, word, i) == at,
    decreases at - i,
{
    if i < at {
        lemma_define_at(all, word, i + 1, at);
    }
}

proof fn lemma_closing(all: Seq<Line>, i: int, at: int)
    requires
        0 <= i <= at < all.len(),
        all[at] == seq!["}"@],
        forall|j: int| i <= j < at ==> #[trigger] all[j] != seq!["}"@],
    ensures
        closing(all, i) == at,
    decreases at - i,
{
    if i < at {
        lemma_closing(all, i + 1, at);
    }
}

/// A line inside a function: neither the first of one nor the last.
pub open spec fn is_inner(ws: Line) -> bool {
    &&& ws != seq!["}"@]
    &&& ws[0] != "define"@ || ws[1] == "="@
}

proof fn lemma_words()
    ensures
        "define"@.len() == 6 && "define"@[0] == 'd',
        "internal"@.len() == 8,
        "="@.len() == 1,
        "}"@.len() == 1 && "}"@[0] == '}',
        "store"@.len() == 5,
        "br"@.len() == 2,
        "switch"@.len() == 6 && "switch"@[0] == 's',
        "ret"@.len() == 3,
        "call"@.len() == 4,
        "unreachable"@.len() == 11,
        "entry:"@.len() == 6 && "entry:"@[0] == 'e',
        "declare"@.len() == 7,
{
    reveal_strlit("define");
    reveal_strlit("internal");
    reveal_strlit("=");
    reveal_strlit("}");
    reveal_strlit("store");
    reveal_strlit("br");
    reveal_strlit("switch");
    reveal_strlit("ret");
    reveal_strlit("call");
    reveal_strlit("unreachable");
    reveal_strlit("entry:");
    reveal_strlit("declare");
}

proof fn lemma_block_inner(w: Around, strs: Seq<Seq<char>>, b: BlockV, j: int)
    requires
        0 <= j < block_lines(w, strs, b).len(),
    ensures
        is_inner(block_lines(w, strs, b)[j]),
{
    lemma_words();
    let xs = insts_lines(w, strs, b.insts, 0);
    let ts = term_lines(w, insts_strs(strs, b.insts, 0), b.term);
    lemma_insts_steps(w, strs, b.insts, 0);
    let brace = seq!["}"@];
    assert(brace.len() == 1 && brace[0] == "}"@);
    if j < xs.len() {
        assert(block_lines(w, strs, b)[j] == xs[j]);
        assert(is_step(xs[j]));
    } else {
        let l = ts[j - xs.len()];
        assert(block_lines(w, strs, b)[j] == l);
        assert(l[0] == "br"@ || l[0] == "switch"@ || l[0] == "ret"@ || l[0] == "call"@ || l[0]
            == "unreachable"@);
    }
}

proof fn lemma_blocks_inner(w: Around, strs: Seq<Seq<char>>, bs: Seq<BlockV>, i: int, j: int)
    requires
        0 <= j < blocks_lines(w, strs, bs, i).len(),
    ensures
        is_inner(blocks_lines(w, strs, bs, i)[j]),
    decreases bs.len() - i,
{
    lemma_words();
    let head = seq![label_line(i as nat)];
    let first = block_lines(w, strs, bs[i]);
    let rest = blocks_lines(w, block_strs(strs, bs[i]), bs, i + 1);
    let l = blocks_lines(w, strs, bs, i)[j];
    if j == 0 {
        lemma_label_char(i as nat);
        assert(l == label_line(i as nat));
        let brace = seq!["}"@];
        assert(brace[0] == "}"@);
    } else if j < 1 + first.len() {
        assert(l == first[j - 1]);
        lemma_block_inner(w, strs, bs[i], j - 1);
    } else {
        assert(l == rest[j - 1 - first.len()]);
        lemma_blocks_inner(w, block_strs(strs, bs[i]), bs, i + 1, j - 1 - first.len());
    }
}

proof fn lemma_func_inner(f: FlatFuncV, funcs: Seq<Seq<char>>, strs: Seq<Seq<char>>, j: int)
    requires
        0 < j < func_lines(f, funcs, strs).len() - 1,
    ensures
        is_inner(func_lines(f, funcs, strs)[j]),
{
    lemma_words();
    let front = prologue(f);
    let mid = blocks_lines(around(f, funcs), strs, f.blocks, 0);
    let a = room_lines(f.slots, 0);
    let b = spill_lines(f.params, 0);
    lemma_room_len(f.slots, 0);
    lemma_spill_len(f.params, 0);
    let l = func_lines(f, funcs, strs)[j];
    let brace = seq!["}"@];
    assert(brace.len() == 1 && brace[0] == "}"@);
    if j >= front.len() {
        assert(l == mid[j - front.len()]);
        lemma_blocks_inner(around(f, funcs), strs, f.blocks, 0, j - front.len());
    } else {
        assert(l == front[j]);
        if j == 1 {
            assert(l == seq!["entry:"@]);
            assert(l[0] == "entry:"@);
        } else if j < 2 + a.len() {
            assert(l == a[j - 2]);
        } else if j < 2 + a.len() + b.len() {
            assert(l == b[j - 2 - a.len()]);
        } else {
            assert(l == jump_line());
            assert(l[0] == "br"@ && l.len() == 3);
        }
    }
}

proof fn lemma_header_defines(f: FlatFuncV, word: Seq<char>)
    ensures
        is_define(header(f), word) <==> word == fn_word(f.name),
        header(f) != seq!["}"@],
{
    lemma_words();
    lemma_ty_text(f.ret);
    reveal_strlit("i64");
    reveal_strlit("i1");
    reveal_strlit("double");
    reveal_strlit("ptr");
    assert("i64"@.len() == 3 && "i1"@.len() == 2 && "double"@.len() == 6 && "ptr"@.len() == 3);
    let h = header(f);
    let t = ty_text(f.ret);
    assert(h.len() >= 4);
    assert(seq!["}"@].len() == 1);
    if f.name == "main"@ {
        assert(h[0] == "define"@ && h[1] == t && h[2] == fn_word(f.name));
    } else {
        assert(h[0] == "define"@ && h[1] == "internal"@ && h[2] == t && h[3] == fn_word(f.name));
    }
}

// The lines of a module.

/// The lines of the functions from `i` on.
pub open spec fn funcs_lines(fs: Seq<FlatFuncV>, funcs: Seq<Seq<char>>, strs: Seq<Seq<char>>, i: int) -> Seq<Line>
    decreases fs.len() - i,
{
    if !(0 <= i < fs.len()) {
        Seq::empty()
    } else {
        func_lines(fs[i], funcs, strs) + funcs_lines(
            fs,
            funcs,
            blocks_strs(strs, fs[i].blocks, 0),
            i + 1,
        )
    }
}

/// The string constants of the functions from `i` on.
pub open spec fn funcs_strs(fs: Seq<FlatFuncV>, strs: Seq<Seq<char>>, i: int) -> Seq<Seq<char>>
    decreases fs.len() - i,
{
    if !(0 <= i < fs.len()) {
        strs
    } else {
        funcs_strs(fs, blocks_strs(strs, fs[i].blocks, 0), i + 1)
    }
}

/// The string constants of a program.
pub open spec fn module_strs(fs: Seq<FlatFuncV>) -> Seq<Seq<char>> {
    funcs_strs(fs, Seq::empty(), 0)
}

proof fn lemma_funcs_text(p: Page, lines: Seq<Line>, fs: Seq<FlatFuncV>, funcs: Seq<Seq<char>>, i: int)
    requires
        at_line(p, lines),
        forall|k: int| 0 <= k < fs.len() ==> func_writable(#[trigger] fs[k]),
        0 <= i,
    ensures
        at_line(say_funcs(p, fs, funcs, i), lines + funcs_lines(fs, funcs, p.strs, i)),
        say_funcs(p, fs, funcs, i).strs == funcs_strs(fs, p.strs, i),
    decreases fs.len() - i,
{
    if i < fs.len() {
        assert(func_writable(fs[i]));
        lemma_func_text(p, lines, fs[i], funcs);
        let ls = func_lines(fs[i], funcs, p.strs);
        lemma_funcs_text(say_func(p, fs[i], funcs), lines + ls, fs, funcs, i + 1);
        let rest = funcs_lines(fs, funcs, blocks_strs(p.strs, fs[i].blocks, 0), i + 1);
        assert(lines + ls + rest =~= lines + (ls + rest));
    } else {
        assert(lines + funcs_lines(fs, funcs, p.strs, i) =~= lines);
    }
}

/// Where the lines of function `n` are among those of the functions from `i` on, and the
/// string constants before them.
proof fn lemma_func_there(
    fs: Seq<FlatFuncV>,
    funcs: Seq<Seq<char>>,
    strs: Seq<Seq<char>>,
    i: int,
    n: int,
) -> (r: (int, Seq<Seq<char>>))
    requires
        funcs == names_of(fs),
        are_funcs(funcs),
        0 <= i <= n < fs.len(),
    ensures
        ({
            let (at, before) = r;
            let all = funcs_lines(fs, funcs, strs, i);
            let mine = func_lines(fs[n], funcs, before);
            let word = fn_word(fs[n].name);
            &&& 0 <= at
            &&& at + mine.len() <= all.len()
            &&& forall|j: int| 0 <= j < at ==> !is_define(#[trigger] all[j], word)
            &&& forall|j: int| 0 <= j < mine.len() ==> all[at + j] == #[trigger] mine[j]
            &&& starts(blocks_strs(before, fs[n].blocks, 0), funcs_strs(fs, strs, i))
        }),
    decreases n - i,
{
    let all = funcs_lines(fs, funcs, strs, i);
    let first = func_lines(fs[i], funcs, strs);
    let next = blocks_strs(strs, fs[i].blocks, 0);
    let rest = funcs_lines(fs, funcs, next, i + 1);
    let word = fn_word(fs[n].name);
    if i == n {
        lemma_funcs_grow(fs, next, i + 1);
        (0, strs)
    } else {
        let (at, before) = lemma_func_there(fs, funcs, next, i + 1, n);
        let mine = func_lines(fs[n], funcs, before);
        let m = first.len() as int;
        assert forall|j: int| 0 <= j < m + at implies !is_define(#[trigger] all[j], word) by {
            if j < m {
                assert(all[j] == first[j]);
                lemma_words();
                if j == 0 {
                    assert(first[0] == prologue(fs[i])[0]);
                    assert(first[0] == header(fs[i]));
                    lemma_header_defines(fs[i], word);
                    if word == fn_word(fs[i].name) {
                        assert(funcs[i] == fs[i].name && funcs[n] == fs[n].name);
                        names_are_told_apart(fs[i].name, fs[n].name);
                    }
                } else if j == m - 1 {
                    assert(first[j] == seq!["}"@]);
                    assert(first[j].len() == 1);
                } else {
                    lemma_func_inner(fs[i], funcs, strs, j);
                }
            } else {
                assert(all[j] == rest[j - m]);
            }
        }
        assert forall|j: int| 0 <= j < mine.len() implies all[m + at + j] == #[trigger] mine[j] by {
            assert(all[m + (at + j)] == rest[at + j]);
        }
        (m + at, before)
    }
}

proof fn lemma_funcs_grow(fs: Seq<FlatFuncV>, strs: Seq<Seq<char>>, i: int)
    ensures
        starts(strs, funcs_strs(fs, strs, i)),
    decreases fs.len() - i,
{
    if 0 <= i < fs.len() {
        let next = blocks_strs(strs, fs[i].blocks, 0);
        lemma_funcs_grow(fs, next, i + 1);
        lemma_blocks_grow(strs, fs[i].blocks, 0, funcs_strs(fs, strs, i));
    }
}


// Declarations.

pub open spec fn type_words(ts: Seq<IrTy>, i: int) -> Line
    decreases ts.len() - i,
{
    if !(0 <= i < ts.len()) {
        Seq::empty()
    } else {
        seq![ty_text(ts[i])] + type_words(ts, i + 1)
    }
}

/// The line that declares a function: the type of its value, its name and the types of its
/// parameters.
pub open spec fn decl_line(f: Rt) -> Line {
    seq!["declare"@, ty_text(rt_sig(f).1), "@"@ + rt_text(f)] + type_words(rt_sig(f).0, 0)
}

pub open spec fn decls_lines(rs: Seq<Rt>, i: int) -> Seq<Line>
    decreases rs.len() - i,
{
    if !(0 <= i < rs.len()) {
        Seq::empty()
    } else {
        seq![decl_line(rs[i])] + decls_lines(rs, i + 1)
    }
}

proof fn lemma_types(p: Page, lines: Seq<Line>, words: Line, cur: Seq<char>, ts: Seq<IrTy>, i: int)
    requires
        page_read(p) == in_word(lines, words, cur),
        0 <= i <= ts.len(),
        i == 0 ==> cur.len() == 0,
        i > 0 ==> cur.len() > 0,
    ensures
        at_line(
            say(say_types(p, ts, i), ")\n"@),
            lines.push(ended(words, cur) + type_words(ts, i)),
        ),
        say_types(p, ts, i).strs == p.strs,
    decreases ts.len() - i,
{
    if i == ts.len() {
        reveal_strlit(")\n");
        assert(")\n"@ =~= seq![')'] + none() + seq!['\n']);
        said_end(p, lines, words, cur, ")\n"@, seq![')'], none());
        assert(ended(words, cur) + type_words(ts, i) =~= ended(words, cur));
    } else {
        let q = if i == 0 {
            p
        } else {
            say(p, ", "@)
        };
        if i > 0 {
            lemma_next(p, lines, words, cur);
        } else {
            assert(cur =~= none());
        }
        let w1 = ended(words, cur);
        let t = ty_text(ts[i]);
        lemma_ty_text(ts[i]);
        lemma_word(q, lines, w1, t);
        lemma_types(say(q, t), lines, w1, t, ts, i + 1);
        assert(w1.push(t) + type_words(ts, i + 1) =~= w1 + type_words(ts, i));
    }
}

proof fn lemma_decls(p: Page, lines: Seq<Line>, rs: Seq<Rt>, i: int)
    requires
        at_line(p, lines),
        0 <= i,
    ensures
        at_line(say_decls(p, rs, i), lines + decls_lines(rs, i)),
        say_decls(p, rs, i).strs == p.strs,
    decreases rs.len() - i,
{
    if i < rs.len() {
        reveal_strlit("declare ");
        reveal_strlit("declare");
        reveal_strlit(" @");
        reveal_strlit(" ");
        reveal_strlit("@");
        reveal_strlit("(");
        let (params, ret) = rt_sig(rs[i]);
        assert("declare "@ =~= none() + "declare"@ + seq![' ']);
        lemma_then(p, lines, Seq::empty(), none(), "declare "@, none(), "declare"@);
        let w1 = Seq::<Seq<char>>::empty().push("declare"@);
        let p1 = say(p, "declare "@);
        let t = ty_text(ret);
        lemma_ty_text(ret);
        lemma_word(p1, lines, w1, t);
        assert(" @"@ =~= " "@ + "@"@);
        said(say(p1, t), lines, w1, t, " @"@, " "@, "@"@);
        let p2 = say(say(p1, t), " @"@);
        lemma_rt_solid(rs[i]);
        said_on(p2, lines, w1.push(t), "@"@, rt_text(rs[i]));
        let name = "@"@ + rt_text(rs[i]);
        let p3 = say(p2, rt_text(rs[i]));
        lemma_gapped(p3, lines, w1.push(t), name, "("@);
        let p4 = say(p3, "("@);
        lemma_types(p4, lines, w1.push(t).push(name), none(), params, 0);
        let l = decl_line(rs[i]);
        assert(w1.push(t).push(name) + type_words(params, 0) =~= l);
        lemma_decls(say(say_types(p4, params, 0), ")\n"@), lines.push(l), rs, i + 1);
        assert(lines.push(l) + decls_lines(rs, i + 1) =~= lines + decls_lines(rs, i));
    } else {
        assert(lines + decls_lines(rs, i) =~= lines);
    }
}

proof fn lemma_decls_start(rs: Seq<Rt>, i: int)
    ensures
        forall|j: int|
            0 <= j < decls_lines(rs, i).len() ==> (#[trigger] decls_lines(rs, i)[j])[0]
                == "declare"@,
    decreases rs.len() - i,
{
    if 0 <= i < rs.len() {
        lemma_decls_start(rs, i + 1);
        let rest = decls_lines(rs, i + 1);
        assert forall|j: int| 0 <= j < decls_lines(rs, i).len() implies (#[trigger] decls_lines(
            rs,
            i,
        )[j])[0] == "declare"@ by {
            if j > 0 {
                assert(decls_lines(rs, i)[j] == rest[j - 1]);
            } else {
                assert(decls_lines(rs, i)[j] == decl_line(rs[i]));
            }
        }
    }
}

/// The first declarations.
pub open spec fn first_lines() -> Seq<Line> {
    seq![
        seq!["declare"@, "ptr"@, "@lumo_new"@, "i64"@],
        seq!["declare"@, "ptr"@, "@lumo_new_tagged"@, "i64"@],
        seq!["declare"@, "void"@, "@lumo_panic"@, "ptr"@],
    ]
}

proof fn lemma_first(p: Page, lines: Seq<Line>, s: Seq<char>, t: Seq<char>, name: Seq<char>, a: Seq<char>)
    requires
        at_line(p, lines),
        s == "declare"@ + seq![' '] + t + seq![' '] + name + seq!['('] + a + seq![')', '\n'],
        is_solid(t) && is_solid(name) && is_solid(a),
        t.len() > 0 && name.len() > 0 && a.len() > 0,
    ensures
        at_line(say(p, s), lines.push(seq!["declare"@, t, name, a])),
{
    reveal_strlit("declare");
    let s1 = none() + "declare"@ + seq![' '] + t + seq![' '] + name;
    said2(p, lines, Seq::empty(), none(), s1, none(), "declare"@, t, name);
    let w1 = Seq::<Seq<char>>::empty().push("declare"@).push(t);
    let p1 = say(p, s1);
    let s2 = seq!['('] + a;
    said(p1, lines, w1, name, s2, seq!['('], a);
    let p2 = say(p1, s2);
    let s3 = seq![')'] + none() + seq!['\n'];
    said_end(p2, lines, w1.push(name), a, s3, seq![')'], none());
    assert(say(p2, s3).text =~= say(p, s).text);
    lemma_same_text(say(p2, s3), say(p, s));
    assert(w1.push(name).push(a) =~= seq!["declare"@, t, name, a]);
}

proof fn lemma_start() -> (p: Page)
    ensures
        p == say(
            (Page { text: Seq::empty(), strs: Seq::empty() }),
            "declare ptr @lumo_new(i64)\ndeclare ptr @lumo_new_tagged(i64)\ndeclare void @lumo_panic(ptr)\n"@,
        ),
        at_line(p, first_lines()),
{
    reveal_strlit(
        "declare ptr @lumo_new(i64)\ndeclare ptr @lumo_new_tagged(i64)\ndeclare void @lumo_panic(ptr)\n",
    );
    let s = "declare ptr @lumo_new(i64)\ndeclare ptr @lumo_new_tagged(i64)\ndeclare void @lumo_panic(ptr)\n"@;
    reveal_strlit("declare");
    reveal_strlit("ptr");
    reveal_strlit("void");
    reveal_strlit("i64");
    reveal_strlit("@lumo_new");
    reveal_strlit("@lumo_new_tagged");
    reveal_strlit("@lumo_panic");
    let p0 = Page { text: Seq::empty(), strs: Seq::empty() };
    assert(at_line(p0, Seq::empty())) by {
        reveal(page_read);
    }
    let end = seq![')', '\n'];
    let s1 = "declare"@ + seq![' '] + "ptr"@ + seq![' '] + "@lumo_new"@ + seq!['('] + "i64"@ + end;
    let s2 = "declare"@ + seq![' '] + "ptr"@ + seq![' '] + "@lumo_new_tagged"@ + seq!['('] + "i64"@
        + end;
    let s3 = "declare"@ + seq![' '] + "void"@ + seq![' '] + "@lumo_panic"@ + seq!['('] + "ptr"@
        + end;
    let ls = first_lines();
    lemma_first(p0, Seq::empty(), s1, "ptr"@, "@lumo_new"@, "i64"@);
    let l1 = Seq::<Line>::empty().push(ls[0]);
    lemma_first(say(p0, s1), l1, s2, "ptr"@, "@lumo_new_tagged"@, "i64"@);
    lemma_first(say(say(p0, s1), s2), l1.push(ls[1]), s3, "void"@, "@lumo_panic"@, "ptr"@);
    let p = say(p0, s);
    assert(s =~= s1 + s2 + s3);
    assert(say(say(say(p0, s1), s2), s3).text =~= p.text);
    lemma_same_text(say(say(say(p0, s1), s2), s3), p);
    assert(l1.push(ls[1]).push(ls[2]) =~= ls);
    p
}

// String constants.

/// The word for a string constant: its bytes and a zero, between quotes.
pub open spec fn const_word(s: Seq<char>) -> Seq<char> {
    "c"@ + ("\""@ + (bytes_text(encode_utf8(s), 0) + "\\00"@) + "\""@)
}

/// The line of a string constant: its name, how many bytes it has, and those.
pub open spec fn const_line(i: nat, s: Seq<char>) -> Line {
    seq![
        str_word(i),
        "="@,
        "private"@,
        "unnamed_addr"@,
        "constant"@,
        dec_text(byte_len(s) + 1),
        "x"@,
        "i8"@,
        const_word(s),
    ]
}

pub open spec fn consts_lines(strs: Seq<Seq<char>>, i: int) -> Seq<Line>
    decreases strs.len() - i,
{
    if !(0 <= i < strs.len()) {
        Seq::empty()
    } else {
        seq![const_line(i as nat, strs[i])] + consts_lines(strs, i + 1)
    }
}

proof fn lemma_const_text(p: Page, lines: Seq<Line>, i: nat, s: Seq<char>)
    requires
        at_line(p, lines),
    ensures
        ({
            let p1 = say(say_num(say(p, "@.s"@), i), " = private unnamed_addr constant ["@);
            let p2 = say(say_num(p1, byte_len(s) + 1), " x i8] c\""@);
            at_line(
                say(say_bytes(p2, encode_utf8(s), 0), "\\00\"\n"@),
                lines.push(const_line(i, s)),
            )
        }),
{
    reveal_strlit("@.s");
    reveal_strlit(" = private unnamed_addr constant [");
    reveal_strlit("=");
    reveal_strlit("private");
    reveal_strlit("unnamed_addr");
    reveal_strlit("constant");
    reveal_strlit(" x i8] c\"");
    reveal_strlit("x");
    reveal_strlit("i8");
    reveal_strlit("c");
    reveal_strlit("\"");
    reveal_strlit("\\00");
    reveal_strlit("\\00\"\n");
    reveal_strlit("\n");
    let long = " = private unnamed_addr constant ["@;
    lemma_word(p, lines, Seq::empty(), "@.s"@);
    let pa = say(p, "@.s"@);
    said_num(pa, lines, Seq::empty(), "@.s"@, i);
    let pb = say_num(pa, i);
    let a1 = seq![' '] + "="@ + seq![' '] + "private"@ + seq![' '] + "unnamed_addr"@;
    said2(pb, lines, Seq::empty(), str_word(i), a1, seq![' '], "="@, "private"@, "unnamed_addr"@);
    let w1 = Seq::<Seq<char>>::empty().push(str_word(i)).push("="@).push("private"@);
    let pc = say(pb, a1);
    let a2 = seq![' '] + "constant"@;
    said(pc, lines, w1, "unnamed_addr"@, a2, seq![' '], "constant"@);
    let w2 = w1.push("unnamed_addr"@);
    let pd = say(pc, a2);
    let a3 = seq![' ', '['];
    lemma_gapped(pd, lines, w2, "constant"@, a3);
    let w3 = w2.push("constant"@);
    let p1 = say(pb, long);
    assert(say(pd, a3).text =~= p1.text);
    lemma_same_text(say(pd, a3), p1);
    let n = byte_len(s) + 1;
    lemma_number(p1, lines, w3, n);
    let pe = say_num(p1, n);
    let b1 = seq![' '] + "x"@ + seq![' '] + "i8"@;
    said1(pe, lines, w3, dec_text(n), b1, seq![' '], "x"@, "i8"@);
    let w4 = w3.push(dec_text(n)).push("x"@);
    let pf = say(pe, b1);
    let b2 = seq![']', ' '] + "c"@;
    said(pf, lines, w4, "i8"@, b2, seq![']', ' '], "c"@);
    let w5 = w4.push("i8"@);
    let pg = say(pf, b2);
    let t = bytes_text(encode_utf8(s), 0);
    let inner = t + "\\00"@;
    crate::laws::calls::lemma_no_quote(encode_utf8(s), 0);
    assert forall|k: int| 0 <= k < inner.len() implies #[trigger] inner[k] != '"' by {
        if k < t.len() {
            assert(inner[k] == t[k]);
        }
    }
    let quoted = "\""@ + inner + "\""@;
    lemma_in_quotes(lines, w5, "c"@, "\""@, inner);
    lemma_say(pg, quoted);
    let ph = say(pg, quoted);
    said_newline(ph, lines, w5, "c"@ + quoted);
    let p2 = say(pe, " x i8] c\""@);
    lemma_say_bytes(p2, encode_utf8(s), 0);
    let q = say(say_bytes(p2, encode_utf8(s), 0), "\\00\"\n"@);
    assert(say(ph, "\n"@).text =~= q.text);
    lemma_same_text(say(ph, "\n"@), q);
    assert(w5.push("c"@ + quoted) =~= const_line(i, s));
}

proof fn lemma_consts(p: Page, lines: Seq<Line>, strs: Seq<Seq<char>>, i: int)
    requires
        at_line(p, lines),
        0 <= i,
    ensures
        at_line(say_strs(p, strs, i), lines + consts_lines(strs, i)),
    decreases strs.len() - i,
{
    if i < strs.len() {
        lemma_const_text(p, lines, i as nat, strs[i]);
        let l = const_line(i as nat, strs[i]);
        let p1 = say(
            say_num(say(p, "@.s"@), i as nat),
            " = private unnamed_addr constant ["@,
        );
        let p2 = say(say_num(p1, byte_len(strs[i]) + 1), " x i8] c\""@);
        let q = say(say_bytes(p2, encode_utf8(strs[i]), 0), "\\00\"\n"@);
        lemma_consts(q, lines.push(l), strs, i + 1);
        assert(lines.push(l) + consts_lines(strs, i + 1) =~= lines + consts_lines(strs, i));
    } else {
        assert(lines + consts_lines(strs, i) =~= lines);
    }
}

/// The bytes that the word for a string constant stands for are those of the string, and a
/// zero behind them.
pub proof fn constants_are_read_as_they_are_written(s: Seq<char>)
    ensures
        ({
            let w = const_word(s);
            bytes_written(w.subrange(2, w.len() - 1)) == encode_utf8(s).push(0)
        }),
{
    reveal_strlit("c");
    reveal_strlit("\"");
    reveal_strlit("\\00");
    let bytes = encode_utf8(s);
    let t = bytes_text(bytes, 0);
    let w = const_word(s);
    assert(w.subrange(2, w.len() - 1) =~= t + "\\00"@);
    lemma_more(bytes, 0);
    let all = bytes.push(0);
    assert(t + "\\00"@ =~= bytes_text(all, 0));
    bytes_are_read_as_they_are_written(all, 0);
    assert(all.skip(0) =~= all);
}

proof fn lemma_more(bytes: Seq<u8>, i: int)
    requires
        0 <= i <= bytes.len(),
    ensures
        bytes_text(bytes.push(0), i) == bytes_text(bytes, i) + "\\00"@,
    decreases bytes.len() - i,
{
    reveal_strlit("\\00");
    let all = bytes.push(0);
    if i < bytes.len() {
        lemma_more(bytes, i + 1);
        assert(all[i] == bytes[i]);
        assert(bytes_text(all, i) =~= bytes_text(bytes, i) + "\\00"@);
    } else {
        assert(all[i] == 0);
        assert(bytes_text(all, i + 1) =~= Seq::empty());
        assert(crate::assembly::byte_text(0) =~= seq!['\\', '0', '0']);
        assert(bytes_text(all, i) =~= bytes_text(bytes, i) + "\\00"@);
    }
}

// The whole.

pub open spec fn module_lines(fs: Seq<FlatFuncV>) -> Seq<Line> {
    first_lines() + decls_lines(all_rts(), 0) + funcs_lines(fs, names_of(fs), Seq::empty(), 0)
        + consts_lines(module_strs(fs), 0)
}

/// The lines of the text of a program: what it declares, its functions in their order, and
/// its string constants.
pub proof fn lemma_module_lines(fs: Seq<FlatFuncV>)
    requires
        forall|k: int| 0 <= k < fs.len() ==> func_writable(#[trigger] fs[k]),
    ensures
        lines_of(module_text(fs)) == module_lines(fs),
{
    let start = lemma_start();
    lemma_decls(start, first_lines(), all_rts(), 0);
    let p1 = say_decls(start, all_rts(), 0);
    let l1 = first_lines() + decls_lines(all_rts(), 0);
    lemma_funcs_text(p1, l1, fs, names_of(fs), 0);
    let p2 = say_funcs(p1, fs, names_of(fs), 0);
    assert(start.strs =~= Seq::empty());
    let l2 = l1 + funcs_lines(fs, names_of(fs), Seq::empty(), 0);
    lemma_consts(p2, l2, p2.strs, 0);
    let q = say_strs(p2, p2.strs, 0);
    assert(q.text == module_text(fs));
    reveal(page_read);
    assert(lines_of(q.text) == page_read(q).lines);
}

/// The lines of a function are found by its name. Answers with the string constants before
/// them.
#[verifier::rlimit(40)]
#[verifier::spinoff_prover]
proof fn lemma_found(fs: Seq<FlatFuncV>, n: int) -> (before: Seq<Seq<char>>)
    requires
        are_funcs(names_of(fs)),
        forall|k: int| 0 <= k < fs.len() ==> func_writable(#[trigger] fs[k]),
        0 <= n < fs.len(),
    ensures
        body_of(lines_of(module_text(fs)), fn_word(fs[n].name)) == func_lines(
            fs[n],
            names_of(fs),
            before,
        ),
        starts(blocks_strs(before, fs[n].blocks, 0), module_strs(fs)),
{
    let funcs = names_of(fs);
    let all = lines_of(module_text(fs));
    lemma_module_lines(fs);
    let front = first_lines() + decls_lines(all_rts(), 0);
    let mid = funcs_lines(fs, funcs, Seq::empty(), 0);
    let back = consts_lines(module_strs(fs), 0);
    assert(all == front + mid + back);
    let (at, before) = lemma_func_there(fs, funcs, Seq::empty(), 0, n);
    let mine = func_lines(fs[n], funcs, before);
    let word = fn_word(fs[n].name);
    let k = front.len() + at;
    lemma_words();
    lemma_decls_start(all_rts(), 0);
    assert forall|j: int| 0 <= j < k implies !is_define(#[trigger] all[j], word) by {
        if j < front.len() {
            assert(all[j] == front[j]);
            if j < 3 {
                assert(front[j] == first_lines()[j]);
                assert(front[j][0] == "declare"@);
            } else {
                assert(front[j] == decls_lines(all_rts(), 0)[j - 3]);
            }
        } else {
            assert(all[j] == mid[j - front.len()]);
        }
    }
    assert forall|j: int| 0 <= j < mine.len() implies all[k + j] == #[trigger] mine[j] by {
        assert(all[front.len() + (at + j)] == mid[at + j]);
    }
    assert(mine[0] == prologue(fs[n])[0]);
    assert(mine[0] == header(fs[n]));
    lemma_header_defines(fs[n], word);
    assert(all[k + 0] == mine[0]);
    lemma_define_at(all, word, 0, k);
    let last = mine.len() - 1;
    assert(mine[last] == seq!["}"@]);
    assert(all[k + last] == mine[last]);
    assert forall|j: int| k <= j < k + last implies #[trigger] all[j] != seq!["}"@] by {
        assert(all[k + (j - k)] == mine[j - k]);
        if j > k {
            lemma_func_inner(fs[n], funcs, before, j - k);
        }
    }
    lemma_closing(all, k, k + last);
    assert(body_of(all, word) =~= mine) by {
        assert forall|j: int| 0 <= j < mine.len() implies body_of(all, word)[j] == mine[j] by {
            assert(all[k + j] == mine[j]);
        }
    }
    before
}

/// The text of a program runs as the program does. The lines of a function, found in the text
/// by its name and run from its entry by what LLVM says of each instruction, end as the blocks
/// of the function do from the first on: with the same value, with the same message or in the
/// middle, and in the same memory. That is so for every function, for all parameters and from
/// every memory, as long as on the way each instruction can be written.
pub proof fn programs_run_as_they_are_written(
    other: Base<Word, Heap>,
    fs: Seq<FlatFuncV>,
    n: int,
    env: Env,
    s: State<Word, Heap>,
    fuel: nat,
)
    requires
        are_funcs(names_of(fs)),
        forall|k: int| 0 <= k < fs.len() ==> func_writable(#[trigger] fs[k]),
        0 <= n < fs.len(),
        enters(other, env, s, 0, fs[n].params.len(), module_strs(fs)),
        is_writable_run(
            other,
            around(fs[n], names_of(fs)),
            fs[n].blocks,
            0,
            s,
            Set::empty(),
            (fuel + 1) as nat,
        ),
    ensures
        ({
            let body = body_of(lines_of(module_text(fs)), fn_word(fs[n].name));
            ends_alike(
                other,
                run_from(
                    other,
                    fn_words(names_of(fs)),
                    body,
                    behind_label(body, "%entry"@, 0),
                    env,
                    s.w,
                    (fuel + 1) as nat,
                ),
                run_block(machine(on_machine(other)), fs[n].blocks, 0, s, (fuel + 1) as nat),
            )
        }),
{
    let before = lemma_found(fs, n);
    lemma_func_runs(other, fs[n], names_of(fs), before, module_strs(fs), env, s, fuel);
}

} // verus!
