//! Code as blocks: straight rows of instructions that end by going on elsewhere.
use crate::ir::{Code, Inst, IrFunc, IrTy, Opnd};
use vstd::prelude::*;
#[allow(unused_imports)]
use crate::ir::{cases_view, code_view, codes_view, opnds_view, CodeV, InstV, IrFuncV, OpndV};

verus! {

/// How a block ends. Blocks are named by their index.
#[derive(Debug)]
pub enum Term {
    Jump(usize),
    Branch { cond: Opnd, then: usize, els: usize },
    /// Goes on with the target of the first tag that `on` is, or with `default`.
    Switch { on: Opnd, tags: Vec<usize>, targets: Vec<usize>, default: usize },
    Return(Opnd),
    /// Writes the message to the standard error output and ends the program.
    Panic(&'static str),
}

/// A block.
#[derive(Debug)]
pub struct Block {
    pub insts: Vec<Inst>,
    pub term: Term,
}

/// A function as blocks, which starts with the first.
#[derive(Debug)]
pub struct FlatFunc {
    pub name: String,
    /// The types of the parameters, which are the first of the variables.
    pub params: Vec<IrTy>,
    pub ret: IrTy,
    /// The types of the variables.
    pub slots: Vec<IrTy>,
    /// The types of the registers.
    pub regs: Vec<IrTy>,
    pub blocks: Vec<Block>,
}

/// What a [`Term`] stands for.
pub ghost enum TermV {
    Jump(nat),
    Branch { cond: OpndV, then: nat, els: nat },
    Switch { on: OpndV, tags: Seq<usize>, targets: Seq<nat>, default: nat },
    Return(OpndV),
    Panic(Seq<char>),
}

/// What a [`Block`] stands for.
pub ghost struct BlockV {
    pub insts: Seq<InstV>,
    pub term: TermV,
}

/// What a [`FlatFunc`] stands for.
pub ghost struct FlatFuncV {
    pub name: Seq<char>,
    pub params: Seq<IrTy>,
    pub ret: IrTy,
    pub slots: Seq<IrTy>,
    pub regs: Seq<IrTy>,
    pub blocks: Seq<BlockV>,
}

/// Where code goes on: at its end, after a `break`, after a `continue`.
pub ghost struct Ways {
    pub end: TermV,
    pub brk: nat,
    pub cont: nat,
}

impl View for Term {
    type V = TermV;

    open spec fn view(&self) -> TermV {
        match self {
            Term::Jump(b) => TermV::Jump(*b as nat),
            Term::Branch { cond, then, els } => TermV::Branch {
                cond: cond@,
                then: *then as nat,
                els: *els as nat,
            },
            Term::Switch { on, tags, targets, default } => TermV::Switch {
                on: on@,
                tags: tags@,
                targets: targets_view(targets@),
                default: *default as nat,
            },
            Term::Return(v) => TermV::Return(v@),
            Term::Panic(m) => TermV::Panic(m@),
        }
    }
}

pub open spec fn targets_view(v: Seq<usize>) -> Seq<nat> {
    Seq::new(v.len(), |i: int| v[i] as nat)
}

pub open spec fn insts_view(v: Seq<Inst>) -> Seq<InstV> {
    Seq::new(v.len(), |i: int| v[i]@)
}

impl View for Block {
    type V = BlockV;

    open spec fn view(&self) -> BlockV {
        BlockV { insts: insts_view(self.insts@), term: self.term@ }
    }
}

pub open spec fn blocks_view(v: Seq<Block>) -> Seq<BlockV> {
    Seq::new(v.len(), |i: int| v[i]@)
}

impl View for FlatFunc {
    type V = FlatFuncV;

    open spec fn view(&self) -> FlatFuncV {
        FlatFuncV {
            name: self.name@,
            params: self.params@,
            ret: self.ret,
            slots: self.slots@,
            regs: self.regs@,
            blocks: blocks_view(self.blocks@),
        }
    }
}

/// The number of blocks that the code from `k` on takes.
pub open spec fn size(cs: Seq<CodeV>, k: int) -> nat
    decreases cs, cs.len() - k,
{
    if !(0 <= k < cs.len()) {
        1
    } else {
        match cs[k] {
            CodeV::Do(_) => size(cs, k + 1),
            CodeV::If { then, els, .. } => 1 + size(then, 0) + size(els, 0) + size(cs, k + 1),
            CodeV::Loop { head, body, step, .. } => 1 + size(head, 0) + size(body, 0) + size(
                step,
                0,
            ) + size(cs, k + 1),
            CodeV::Switch { cases, default, .. } => 1 + cases_size(cases, 0) + size(default, 0)
                + size(cs, k + 1),
            _ => 1,
        }
    }
}

/// The number of blocks that the cases from `i` on take.
pub open spec fn cases_size(cases: Seq<Seq<CodeV>>, i: int) -> nat
    decreases cases, cases.len() - i,
{
    if !(0 <= i < cases.len()) {
        0
    } else {
        size(cases[i], 0) + cases_size(cases, i + 1)
    }
}

/// The blocks of the code from `k` on, of which the first has the index `at` and starts with
/// `insts`.
pub open spec fn flat(cs: Seq<CodeV>, k: int, insts: Seq<InstV>, at: nat, ways: Ways) -> Seq<
    BlockV,
>
    decreases cs, cs.len() - k,
{
    if !(0 <= k < cs.len()) {
        seq![BlockV { insts, term: ways.end }]
    } else {
        match cs[k] {
            CodeV::Do(inst) => flat(cs, k + 1, insts.push(inst), at, ways),
            CodeV::If { cond, then, els } => {
                let t = at + 1;
                let e = t + size(then, 0);
                let join = e + size(els, 0);
                let inside = Ways { end: TermV::Jump(join), ..ways };
                seq![BlockV { insts, term: TermV::Branch { cond, then: t, els: e } }] + flat(
                    then,
                    0,
                    Seq::empty(),
                    t,
                    inside,
                ) + flat(els, 0, Seq::empty(), e, inside) + flat(
                    cs,
                    k + 1,
                    Seq::empty(),
                    join,
                    ways,
                )
            },
            CodeV::Loop { head, cond, body, step } => {
                let h = at + 1;
                let b = h + size(head, 0);
                let s = b + size(body, 0);
                let exit = s + size(step, 0);
                seq![BlockV { insts, term: TermV::Jump(h) }] + flat(
                    head,
                    0,
                    Seq::empty(),
                    h,
                    Ways { end: TermV::Branch { cond, then: b, els: exit }, ..ways },
                ) + flat(
                    body,
                    0,
                    Seq::empty(),
                    b,
                    Ways { end: TermV::Jump(s), brk: exit, cont: s },
                ) + flat(step, 0, Seq::empty(), s, Ways { end: TermV::Jump(h), ..ways }) + flat(
                    cs,
                    k + 1,
                    Seq::empty(),
                    exit,
                    ways,
                )
            },
            CodeV::Switch { on, tags, cases, default } => {
                let d = at + 1 + cases_size(cases, 0);
                let join = d + size(default, 0);
                let inside = Ways { end: TermV::Jump(join), ..ways };
                seq![
                    BlockV {
                        insts,
                        term: TermV::Switch {
                            on,
                            tags,
                            targets: case_targets(cases, 0, at + 1),
                            default: d,
                        },
                    },
                ] + flat_cases(cases, 0, at + 1, inside) + flat(
                    default,
                    0,
                    Seq::empty(),
                    d,
                    inside,
                ) + flat(cs, k + 1, Seq::empty(), join, ways)
            },
            CodeV::Break => seq![BlockV { insts, term: TermV::Jump(ways.brk) }],
            CodeV::Continue => seq![BlockV { insts, term: TermV::Jump(ways.cont) }],
            CodeV::Return(v) => seq![BlockV { insts, term: TermV::Return(v) }],
            CodeV::Panic(m) => seq![BlockV { insts, term: TermV::Panic(m) }],
        }
    }
}

/// The blocks of the cases from `i` on, of which the first has the index `at`.
pub open spec fn flat_cases(cases: Seq<Seq<CodeV>>, i: int, at: nat, ways: Ways) -> Seq<BlockV>
    decreases cases, cases.len() - i,
{
    if !(0 <= i < cases.len()) {
        Seq::empty()
    } else {
        flat(cases[i], 0, Seq::empty(), at, ways) + flat_cases(
            cases,
            i + 1,
            at + size(cases[i], 0),
            ways,
        )
    }
}

/// Where the cases from `i` on start.
pub open spec fn case_targets(cases: Seq<Seq<CodeV>>, i: int, at: nat) -> Seq<nat>
    decreases cases.len() - i,
{
    if !(0 <= i < cases.len()) {
        Seq::empty()
    } else {
        seq![at] + case_targets(cases, i + 1, at + size(cases[i], 0))
    }
}

/// What a function does where code comes to its end, or leaves a loop that it is not in: it
/// starts over. Lowered code does neither.
pub open spec fn func_ways() -> Ways {
    Ways { end: TermV::Jump(0), brk: 0, cont: 0 }
}

/// A function as blocks.
pub open spec fn flat_func(f: IrFuncV) -> FlatFuncV {
    FlatFuncV {
        name: f.name,
        params: f.params,
        ret: f.ret,
        slots: f.slots,
        regs: f.regs,
        blocks: flat(f.code, 0, Seq::empty(), 0, func_ways()),
    }
}

/// Code takes as many blocks as [`size`] says.
pub proof fn lemma_flat_len(cs: Seq<CodeV>, k: int, insts: Seq<InstV>, at: nat, ways: Ways)
    ensures
        flat(cs, k, insts, at, ways).len() == size(cs, k),
    decreases cs, cs.len() - k,
{
    if 0 <= k < cs.len() {
        match cs[k] {
            CodeV::Do(inst) => {
                lemma_flat_len(cs, k + 1, insts.push(inst), at, ways);
            },
            CodeV::If { cond, then, els } => {
                let t = at + 1;
                let e = t + size(then, 0);
                let join = e + size(els, 0);
                let inside = Ways { end: TermV::Jump(join), ..ways };
                lemma_flat_len(then, 0, Seq::empty(), t, inside);
                lemma_flat_len(els, 0, Seq::empty(), e, inside);
                lemma_flat_len(cs, k + 1, Seq::empty(), join, ways);
            },
            CodeV::Loop { head, cond, body, step } => {
                let h = at + 1;
                let b = h + size(head, 0);
                let s = b + size(body, 0);
                let exit = s + size(step, 0);
                lemma_flat_len(
                    head,
                    0,
                    Seq::empty(),
                    h,
                    Ways { end: TermV::Branch { cond, then: b, els: exit }, ..ways },
                );
                lemma_flat_len(
                    body,
                    0,
                    Seq::empty(),
                    b,
                    Ways { end: TermV::Jump(s), brk: exit, cont: s },
                );
                lemma_flat_len(step, 0, Seq::empty(), s, Ways { end: TermV::Jump(h), ..ways });
                lemma_flat_len(cs, k + 1, Seq::empty(), exit, ways);
            },
            CodeV::Switch { on, tags, cases, default } => {
                let d = at + 1 + cases_size(cases, 0);
                let join = d + size(default, 0);
                let inside = Ways { end: TermV::Jump(join), ..ways };
                lemma_flat_cases_len(cases, 0, at + 1, inside);
                lemma_flat_len(default, 0, Seq::empty(), d, inside);
                lemma_flat_len(cs, k + 1, Seq::empty(), join, ways);
            },
            _ => {},
        }
    }
}

pub proof fn lemma_flat_cases_len(cases: Seq<Seq<CodeV>>, i: int, at: nat, ways: Ways)
    ensures
        flat_cases(cases, i, at, ways).len() == cases_size(cases, i),
    decreases cases, cases.len() - i,
{
    if 0 <= i < cases.len() {
        lemma_flat_len(cases[i], 0, Seq::empty(), at, ways);
        lemma_flat_cases_len(cases, i + 1, at + size(cases[i], 0), ways);
    }
}

// Making the blocks.

fn copy_opnd(v: &Opnd) -> (r: Opnd)
    ensures
        r@ == v@,
{
    match v {
        Opnd::Reg(i) => Opnd::Reg(*i),
        Opnd::Int(n) => Opnd::Int(*n),
        Opnd::Size(n) => Opnd::Size(*n),
        Opnd::Bool(b) => Opnd::Bool(*b),
        Opnd::Float(s) => Opnd::Float(s.clone()),
        Opnd::Str(s) => Opnd::Str(s.clone()),
        Opnd::Null => Opnd::Null,
    }
}

fn copy_opnds(v: &Vec<Opnd>) -> (r: Vec<Opnd>)
    ensures
        opnds_view(r@) == opnds_view(v@),
{
    let mut r: Vec<Opnd> = Vec::new();
    let mut i: usize = 0;
    while i < v.len()
        invariant
            0 <= i <= v@.len(),
            r@.len() == i,
            forall|j: int| 0 <= j < i ==> (#[trigger] r@[j])@ == v@[j]@,
        decreases v@.len() - i,
    {
        r.push(copy_opnd(&v[i]));
        i += 1;
    }
    assert(opnds_view(r@) =~= opnds_view(v@));
    r
}

fn copy_inst(x: &Inst) -> (r: Inst)
    ensures
        r@ == x@,
{
    match x {
        Inst::Op { dst, op, args } => Inst::Op { dst: *dst, op: *op, args: copy_opnds(args) },
        Inst::Call { dst, func, args } => Inst::Call {
            dst: *dst,
            func: *func,
            args: copy_opnds(args),
        },
    }
}

fn copy_sizes(v: &Vec<usize>) -> (r: Vec<usize>)
    ensures
        r@ == v@,
{
    let mut r: Vec<usize> = Vec::new();
    let mut i: usize = 0;
    while i < v.len()
        invariant
            0 <= i <= v@.len(),
            r@ == v@.take(i as int),
        decreases v@.len() - i,
    {
        r.push(v[i]);
        i += 1;
        assert(r@ =~= v@.take(i as int));
    }
    assert(v@.take(i as int) =~= v@);
    r
}

/// How code ends that falls through: by going on at a block, or as a loop decides.
enum End<'a> {
    Jump(usize),
    Branch { cond: &'a Opnd, then: usize, els: usize },
}

impl<'a> View for End<'a> {
    type V = TermV;

    closed spec fn view(&self) -> TermV {
        match self {
            End::Jump(b) => TermV::Jump(*b as nat),
            End::Branch { cond, then, els } => TermV::Branch {
                cond: cond@,
                then: *then as nat,
                els: *els as nat,
            },
        }
    }
}

fn end_term(end: &End) -> (r: Term)
    ensures
        r@ == end@,
{
    match end {
        End::Jump(b) => Term::Jump(*b),
        End::Branch { cond, then, els } => Term::Branch {
            cond: copy_opnd(cond),
            then: *then,
            els: *els,
        },
    }
}

proof fn lemma_size_positive(cs: Seq<CodeV>, k: int)
    ensures
        size(cs, k) >= 1,
    decreases cs, cs.len() - k,
{
    if 0 <= k < cs.len() {
        match cs[k] {
            CodeV::Do(_) => {
                lemma_size_positive(cs, k + 1);
            },
            _ => {},
        }
    }
}

proof fn lemma_codes_view_at(v: Seq<Code>, k: int)
    requires
        0 <= k < v.len(),
    ensures
        codes_view(v).len() == v.len(),
        codes_view(v)[k] == code_view(v[k]),
{
}

/// The sum, where both terms are known and it can be counted.
fn plus(a: Option<usize>, b: Option<usize>) -> (r: Option<usize>)
    ensures
        match (a, b) {
            (Some(x), Some(y)) => if x + y <= usize::MAX {
                r == Some((x + y) as usize)
            } else {
                r is None
            },
            _ => r is None,
        },
{
    match (a, b) {
        (Some(x), Some(y)) => x.checked_add(y),
        _ => None,
    }
}

/// What a number is, where it can be counted.
pub open spec fn counted(n: nat) -> Option<usize> {
    if n <= usize::MAX {
        Some(n as usize)
    } else {
        None
    }
}

/// The number of blocks that the code takes, where it can be counted.
fn count(cs: &Vec<Code>) -> (r: Option<usize>)
    ensures
        r == counted(size(codes_view(cs@), 0)),
    decreases cs,
{
    let ghost all = codes_view(cs@);
    let n: usize = cs.len();
    let mut total: Option<usize> = Some(0);
    let mut so_far: Ghost<nat> = Ghost(0);
    let mut k: usize = 0;
    while k < n
        invariant
            0 <= k <= n,
            n == cs@.len(),
            all == codes_view(cs@),
            all.len() == n,
            total == counted(so_far@),
            size(all, 0) == so_far@ + size(all, k as int),
        decreases n - k,
    {
        proof {
            lemma_codes_view_at(cs@, k as int);
            lemma_size_positive(all, k as int + 1);
        }
        let here: Option<usize> = match &cs[k] {
            Code::Do(_) => Some(0),
            Code::If { then, els, .. } => plus(Some(1), plus(count(then), count(els))),
            Code::Loop { head, body, step, .. } => plus(
                Some(1),
                plus(count(head), plus(count(body), count(step))),
            ),
            Code::Switch { cases, default, .. } => plus(
                Some(1),
                plus(count_cases(cases), count(default)),
            ),
            _ => {
                return plus(total, Some(1));
            },
        };
        total = plus(total, here);
        proof {
            so_far@ = (size(all, 0) - size(all, k + 1)) as nat;
        }
        k += 1;
    }
    plus(total, Some(1))
}

fn count_cases(cases: &Vec<Vec<Code>>) -> (r: Option<usize>)
    ensures
        r == counted(cases_size(cases_view(cases@), 0)),
    decreases cases,
{
    let ghost all = cases_view(cases@);
    let n: usize = cases.len();
    let mut total: Option<usize> = Some(0);
    let mut so_far: Ghost<nat> = Ghost(0);
    let mut i: usize = 0;
    while i < n
        invariant
            0 <= i <= n,
            n == cases@.len(),
            all == cases_view(cases@),
            all.len() == n,
            total == counted(so_far@),
            cases_size(all, 0) == so_far@ + cases_size(all, i as int),
        decreases n - i,
    {
        assert(all[i as int] == codes_view(cases@[i as int]@));
        total = plus(total, count(&cases[i]));
        proof {
            so_far@ = (cases_size(all, 0) - cases_size(all, i + 1)) as nat;
        }
        i += 1;
    }
    total
}


/// Ends the block that is being made.
fn close(out: &mut Vec<Block>, cur: &mut Vec<Inst>, term: Term)
    ensures
        blocks_view(final(out)@) == blocks_view(old(out)@).push(
            BlockV { insts: insts_view(old(cur)@), term: term@ },
        ),
        final(out)@.len() == old(out)@.len() + 1,
        insts_view(final(cur)@) == Seq::<InstV>::empty(),
{
    let ghost before = blocks_view(out@);
    let mut insts: Vec<Inst> = Vec::new();
    std::mem::swap(&mut insts, cur);
    let block = Block { insts, term };
    let ghost b = block@;
    out.push(block);
    assert(blocks_view(out@) =~= before.push(b));
    assert(insts_view(cur@) =~= Seq::empty());
}

/// Makes the blocks of the code, after those there are.
#[verifier::rlimit(40)]
fn make(out: &mut Vec<Block>, cs: &Vec<Code>, end: &End, brk: usize, cont: usize)
    requires
        old(out)@.len() + size(codes_view(cs@), 0) <= usize::MAX,
    ensures
        blocks_view(final(out)@) == blocks_view(old(out)@) + flat(
            codes_view(cs@),
            0,
            Seq::empty(),
            old(out)@.len(),
            (Ways { end: end@, brk: brk as nat, cont: cont as nat }),
        ),
        final(out)@.len() == old(out)@.len() + size(codes_view(cs@), 0),
    decreases cs,
{
    let ghost all = codes_view(cs@);
    let ghost ways = Ways { end: end@, brk: brk as nat, cont: cont as nat };
    let ghost want = blocks_view(out@) + flat(all, 0, Seq::empty(), out@.len(), ways);
    let n: usize = cs.len();
    let mut cur: Vec<Inst> = Vec::new();
    let mut k: usize = 0;
    assert(insts_view(cur@) =~= Seq::empty());
    while k < n
        invariant
            0 <= k <= n,
            n == cs@.len(),
            all == codes_view(cs@),
            all.len() == n,
            ways == (Ways { end: end@, brk: brk as nat, cont: cont as nat }),
            out@.len() + size(all, k as int) <= usize::MAX,
            out@.len() + size(all, k as int) == old(out)@.len() + size(all, 0),
            want == blocks_view(old(out)@) + flat(all, 0, Seq::empty(), old(out)@.len(), ways),
            want == blocks_view(out@) + flat(
                all,
                k as int,
                insts_view(cur@),
                out@.len(),
                ways,
            ),
        decreases n - k,
    {
        let ghost before = blocks_view(out@);
        let ghost insts = insts_view(cur@);
        let ghost at = out@.len();
        let at0: usize = out.len();
        proof {
            lemma_codes_view_at(cs@, k as int);
            lemma_size_positive(all, k + 1);
        }
        match &cs[k] {
            Code::Do(inst) => {
                cur.push(copy_inst(inst));
                proof {
                    assert(insts_view(cur@) =~= insts.push(inst@));
                }
            },
            Code::If { cond, then, els } => {
                proof {
                    lemma_size_positive(codes_view(then@), 0);
                    lemma_size_positive(codes_view(els@), 0);
                }
                let t: usize = at0 + 1;
                let e: usize = t + count(then).unwrap();
                let join: usize = e + count(els).unwrap();
                let ghost inside = Ways { end: TermV::Jump(join as nat), ..ways };
                close(out, &mut cur, Term::Branch { cond: copy_opnd(cond), then: t, els: e });
                make(out, then, &End::Jump(join), brk, cont);
                proof {
                    lemma_flat_len(codes_view(then@), 0, Seq::empty(), t as nat, inside);
                }
                make(out, els, &End::Jump(join), brk, cont);
                proof {
                    lemma_flat_len(codes_view(els@), 0, Seq::empty(), e as nat, inside);
                    let rest = flat(all, k + 1, Seq::empty(), join as nat, ways);
                    assert(want =~= blocks_view(out@) + rest);
                }
            },
            Code::Loop { head, cond, body, step } => {
                proof {
                    lemma_size_positive(codes_view(head@), 0);
                    lemma_size_positive(codes_view(body@), 0);
                    lemma_size_positive(codes_view(step@), 0);
                }
                let h: usize = at0 + 1;
                let b: usize = h + count(head).unwrap();
                let s: usize = b + count(body).unwrap();
                let exit: usize = s + count(step).unwrap();
                let test = End::Branch { cond, then: b, els: exit };
                close(out, &mut cur, Term::Jump(h));
                make(out, head, &test, brk, cont);
                proof {
                    lemma_flat_len(
                        codes_view(head@),
                        0,
                        Seq::empty(),
                        h as nat,
                        Ways { end: test@, ..ways },
                    );
                }
                make(out, body, &End::Jump(s), exit, s);
                proof {
                    lemma_flat_len(
                        codes_view(body@),
                        0,
                        Seq::empty(),
                        b as nat,
                        Ways { end: TermV::Jump(s as nat), brk: exit as nat, cont: s as nat },
                    );
                }
                make(out, step, &End::Jump(h), brk, cont);
                proof {
                    lemma_flat_len(
                        codes_view(step@),
                        0,
                        Seq::empty(),
                        s as nat,
                        Ways { end: TermV::Jump(h as nat), ..ways },
                    );
                    let rest = flat(all, k + 1, Seq::empty(), exit as nat, ways);
                    assert(want =~= blocks_view(out@) + rest);
                }
            },
            Code::Switch { on, tags, cases, default } => {
                proof {
                    lemma_size_positive(codes_view(default@), 0);
                }
                let d: usize = at0 + 1 + count_cases(cases).unwrap();
                let join: usize = d + count(default).unwrap();
                let ghost inside = Ways { end: TermV::Jump(join as nat), ..ways };
                let targets = targets_of(cases, at0 + 1);
                close(
                    out,
                    &mut cur,
                    Term::Switch {
                        on: copy_opnd(on),
                        tags: copy_sizes(tags),
                        targets,
                        default: d,
                    },
                );
                make_cases(out, cases, join, brk, cont);
                proof {
                    lemma_flat_cases_len(cases_view(cases@), 0, at + 1, inside);
                }
                make(out, default, &End::Jump(join), brk, cont);
                proof {
                    lemma_flat_len(codes_view(default@), 0, Seq::empty(), d as nat, inside);
                    let rest = flat(all, k + 1, Seq::empty(), join as nat, ways);
                    assert(want =~= blocks_view(out@) + rest);
                }
            },
            Code::Break => {
                close(out, &mut cur, Term::Jump(brk));
                assert(want =~= blocks_view(out@));
                return;
            },
            Code::Continue => {
                close(out, &mut cur, Term::Jump(cont));
                assert(want =~= blocks_view(out@));
                return;
            },
            Code::Return(v) => {
                close(out, &mut cur, Term::Return(copy_opnd(v)));
                assert(want =~= blocks_view(out@));
                return;
            },
            Code::Panic(m) => {
                close(out, &mut cur, Term::Panic(*m));
                assert(want =~= blocks_view(out@));
                return;
            },
        }
        k += 1;
    }
    close(out, &mut cur, end_term(end));
    assert(want =~= blocks_view(out@));
}

/// Makes the blocks of the cases, after those there are.
fn make_cases(out: &mut Vec<Block>, cases: &Vec<Vec<Code>>, join: usize, brk: usize, cont: usize)
    requires
        old(out)@.len() + cases_size(cases_view(cases@), 0) <= usize::MAX,
    ensures
        blocks_view(final(out)@) == blocks_view(old(out)@) + flat_cases(
            cases_view(cases@),
            0,
            old(out)@.len(),
            (Ways { end: TermV::Jump(join as nat), brk: brk as nat, cont: cont as nat }),
        ),
        final(out)@.len() == old(out)@.len() + cases_size(cases_view(cases@), 0),
    decreases cases,
{
    let ghost all = cases_view(cases@);
    let ghost ways = Ways {
        end: TermV::Jump(join as nat),
        brk: brk as nat,
        cont: cont as nat,
    };
    let ghost want = blocks_view(out@) + flat_cases(all, 0, out@.len(), ways);
    let n: usize = cases.len();
    let mut i: usize = 0;
    while i < n
        invariant
            0 <= i <= n,
            n == cases@.len(),
            all == cases_view(cases@),
            all.len() == n,
            ways == (Ways {
                end: TermV::Jump(join as nat),
                brk: brk as nat,
                cont: cont as nat,
            }),
            out@.len() + cases_size(all, i as int) <= usize::MAX,
            out@.len() + cases_size(all, i as int) == old(out)@.len() + cases_size(all, 0),
            want == blocks_view(out@) + flat_cases(all, i as int, out@.len(), ways),
        decreases n - i,
    {
        let ghost at = out@.len();
        assert(all[i as int] == codes_view(cases@[i as int]@));
        make(out, &cases[i], &End::Jump(join), brk, cont);
        proof {
            lemma_flat_len(all[i as int], 0, Seq::empty(), at, ways);
            let rest = flat_cases(all, i + 1, at + size(all[i as int], 0), ways);
            assert(want =~= blocks_view(out@) + rest);
        }
        i += 1;
    }
    assert(want =~= blocks_view(out@));
}

/// Where the cases start, the first of them at `at`.
fn targets_of(cases: &Vec<Vec<Code>>, at: usize) -> (r: Vec<usize>)
    requires
        at + cases_size(cases_view(cases@), 0) <= usize::MAX,
    ensures
        targets_view(r@) == case_targets(cases_view(cases@), 0, at as nat),
{
    let ghost all = cases_view(cases@);
    let ghost want = case_targets(all, 0, at as nat);
    let mut r: Vec<usize> = Vec::new();
    let mut here: usize = at;
    let n: usize = cases.len();
    let mut i: usize = 0;
    assert(targets_view(r@) + want =~= want);
    while i < n
        invariant
            0 <= i <= n,
            n == cases@.len(),
            all == cases_view(cases@),
            all.len() == n,
            here + cases_size(all, i as int) <= usize::MAX,
            want == targets_view(r@) + case_targets(all, i as int, here as nat),
        decreases n - i,
    {
        let ghost before = targets_view(r@);
        assert(all[i as int] == codes_view(cases@[i as int]@));
        r.push(here);
        proof {
            assert(targets_view(r@) =~= before.push(here as nat));
            let rest = case_targets(all, i + 1, here as nat + size(all[i as int], 0));
            assert(before + (seq![here as nat] + rest) =~= targets_view(r@) + rest);
        }
        here = here + count(&cases[i]).unwrap();
        i += 1;
    }
    assert(want =~= targets_view(r@));
    r
}

/// A function as blocks, where they can be counted.
pub fn flatten(f: &IrFunc) -> (r: Option<FlatFunc>)
    ensures
        match r {
            Some(g) => size(codes_view(f.code@), 0) <= usize::MAX && g@ == flat_func(
                crate::ir::func_view(*f),
            ),
            None => size(codes_view(f.code@), 0) > usize::MAX,
        },
{
    match count(&f.code) {
        Some(_) => {},
        None => {
            return None;
        },
    }
    let mut blocks: Vec<Block> = Vec::new();
    make(&mut blocks, &f.code, &End::Jump(0), 0, 0);
    let r = FlatFunc {
        name: f.name.clone(),
        params: copy_tys(&f.params),
        ret: f.ret,
        slots: copy_tys(&f.slots),
        regs: copy_tys(&f.regs),
        blocks,
    };
    assert(r@.blocks =~= flat_func(crate::ir::func_view(*f)).blocks);
    Some(r)
}

fn copy_tys(v: &Vec<IrTy>) -> (r: Vec<IrTy>)
    ensures
        r@ == v@,
{
    let mut r: Vec<IrTy> = Vec::new();
    let mut i: usize = 0;
    while i < v.len()
        invariant
            0 <= i <= v@.len(),
            r@ == v@.take(i as int),
        decreases v@.len() - i,
    {
        r.push(v[i]);
        i += 1;
        assert(r@ =~= v@.take(i as int));
    }
    assert(v@.take(i as int) =~= v@);
    r
}

} // verus!
