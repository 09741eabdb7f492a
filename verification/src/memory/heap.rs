//! The primitive operations on a machine.
use vstd::prelude::*;
#[allow(unused_imports)]
use crate::ir::{Op, OpndV, Pred, Rt};
#[allow(unused_imports)]
use crate::meaning::{row_from, src_val, src_vals, Base, Done, Part, RowEnd};
#[allow(unused_imports)]
use crate::memory::runtime::runtime_op;
#[allow(unused_imports)]
use crate::runtime::arrays::bytes_no_later;
#[allow(unused_imports)]
use crate::runtime::maps::{entries, Buckets};

verus! {

/// A value on the machine.
pub ghost enum Word {
    Int(i64),
    Bit(bool),
    Null,
    /// A place in a block of memory, so many bytes behind its start.
    At(nat, int),
    /// What the operations here do not touch.
    Other(int),
}

/// A block of memory.
pub ghost enum Block {
    Slots(Seq<Word>),
    Bytes(Seq<u8>),
    /// The entries of a map, with their number before them.
    Table(Buckets<Word>),
}

/// Memory: blocks by their number, all of which are below `next`.
#[verifier::ext_equal]
pub ghost struct Heap {
    pub blocks: Map<nat, Block>,
    pub next: nat,
}

/// A number of 64 bits, of which those that do not fit are cut off.
pub open spec fn wrapped(n: int) -> i64 {
    let m = n % 0x1_0000_0000_0000_0000;
    (if m >= 0x8000_0000_0000_0000 {
        m - 0x1_0000_0000_0000_0000
    } else {
        m
    }) as i64
}

/// The number that the bits of `n` are without a sign.
pub open spec fn unsigned(n: int) -> int {
    if n < 0 {
        n + 0x1_0000_0000_0000_0000
    } else {
        n
    }
}

pub open spec fn compares(pred: Pred, a: int, b: int) -> bool {
    match pred {
        Pred::Eq => a == b,
        Pred::Ne => a != b,
        Pred::Lt => a < b,
        Pred::Le => a <= b,
        Pred::Gt => a > b,
        Pred::Ge => a >= b,
        Pred::Below => unsigned(a) < unsigned(b),
        Pred::AtLeast => unsigned(a) >= unsigned(b),
    }
}

/// What a number comes to.
pub open spec fn number(n: int, h: Heap) -> Done<Word, Heap> {
    Done::Go(Word::Int(wrapped(n)), h)
}

/// A new block.
pub open spec fn allocated(block: Block, h: Heap) -> Done<Word, Heap> {
    Done::Go(
        Word::At(h.next, 0),
        Heap { blocks: h.blocks.insert(h.next, block), next: h.next + 1 },
    )
}

/// Slots that hold zero.
pub open spec fn zeros(n: nat) -> Seq<Word> {
    Seq::new(n, |i: int| Word::Int(0))
}

/// The slots of a block.
pub open spec fn slots(h: Heap, k: nat) -> Option<Seq<Word>> {
    if h.blocks.contains_key(k) {
        match h.blocks[k] {
            Block::Slots(s) => Some(s),
            _ => None,
        }
    } else {
        None
    }
}

/// The bytes of a block.
pub open spec fn bytes(h: Heap, k: nat) -> Option<Seq<u8>> {
    if h.blocks.contains_key(k) {
        match h.blocks[k] {
            Block::Bytes(s) => Some(s),
            _ => None,
        }
    } else {
        None
    }
}

/// The entries of the map at a place.
pub open spec fn table_at(h: Heap, v: Word) -> Option<Buckets<Word>> {
    match v {
        Word::At(k, at) => if at == 0 && h.blocks.contains_key(k) {
            match h.blocks[k] {
                Block::Table(t) => Some(t),
                _ => None,
            }
        } else {
            None
        },
        _ => None,
    }
}

/// The number of entries that stands first in a map.
pub open spec fn counted(h: Heap, v: Word) -> Done<Word, Heap> {
    match table_at(h, v) {
        Some(t) => number(entries(t) as int, h),
        None => Done::Stop(h),
    }
}

/// The index of a slot that is there.
pub open spec fn slot_there(h: Heap, k: nat, at: int) -> bool {
    slots(h, k) is Some && at % 8 == 0 && 0 <= at / 8 < slots(h, k)->0.len()
}

/// The block with other slots.
pub open spec fn with_slots(h: Heap, k: nat, s: Seq<Word>) -> Heap {
    Heap { blocks: h.blocks.insert(k, Block::Slots(s)), next: h.next }
}

pub open spec fn with_bytes(h: Heap, k: nat, s: Seq<u8>) -> Heap {
    Heap { blocks: h.blocks.insert(k, Block::Bytes(s)), next: h.next }
}

/// The first slots of a block, moved to a new block of `n` slots.
pub open spec fn moved(h: Heap, k: nat, n: nat) -> Done<Word, Heap> {
    let s = slots(h, k)->0;
    let kept = Seq::new(
        n,
        |i: int|
            if i < s.len() {
                s[i]
            } else {
                Word::Int(0)
            },
    );
    allocated(
        Block::Slots(kept),
        Heap { blocks: h.blocks.remove(k), next: h.next },
    )
}

/// The index of the first zero from `i` on.
pub open spec fn zero_from(s: Seq<u8>, i: int) -> int
    decreases s.len() - i,
{
    if 0 <= i < s.len() && s[i] != 0 {
        zero_from(s, i + 1)
    } else {
        i
    }
}

/// The string at a place: the bytes up to the zero that ends it.
pub open spec fn text_at(h: Heap, v: Word) -> Option<Seq<u8>> {
    match v {
        Word::At(k, at) => match bytes(h, k) {
            Some(s) => if 0 <= at && zero_from(s, at) < s.len() {
                Some(s.subrange(at, zero_from(s, at)))
            } else {
                None
            },
            None => None,
        },
        _ => None,
    }
}

/// The string and the zero that ends it, written from a place on.
pub open spec fn written(h: Heap, k: nat, at: int, t: Seq<u8>) -> Option<Heap> {
    match bytes(h, k) {
        Some(s) => if 0 <= at && at + t.len() < s.len() {
            Some(
                with_bytes(
                    h,
                    k,
                    Seq::new(
                        s.len(),
                        |i: int|
                            if at <= i < at + t.len() {
                                t[i - at]
                            } else if i == at + t.len() {
                                0u8
                            } else {
                                s[i]
                            },
                    ),
                ),
            )
        } else {
            None
        },
        None => None,
    }
}

/// Where a string goes: at a place, or at the end of the string there.
pub open spec fn copied(h: Heap, to: Word, from: Word, behind: bool) -> Done<Word, Heap> {
    match (to, text_at(h, from)) {
        (Word::At(k, at), Some(t)) => {
            let start = if behind {
                match text_at(h, to) {
                    Some(old) => at + old.len(),
                    None => -1,
                }
            } else {
                at
            };
            match written(h, k, start, t) {
                Some(h1) => Done::Go(to, h1),
                None => Done::Stop(h),
            }
        },
        _ => Done::Stop(h),
    }
}

/// The order of two strings, as a number.
pub open spec fn order(a: Seq<u8>, b: Seq<u8>) -> int {
    if !bytes_no_later(b, a) {
        -1
    } else if a == b {
        0
    } else {
        1
    }
}

/// How far a number is from zero.
pub open spec fn distance(n: int) -> int {
    if n < 0 {
        -n
    } else {
        n
    }
}

/// The quotient of two numbers, rounded toward zero.
pub open spec fn quotient(a: int, b: int) -> int {
    if (a < 0) == (b < 0) {
        distance(a) / distance(b)
    } else {
        -(distance(a) / distance(b))
    }
}

/// What is left of `a` when it is divided by `b`.
pub open spec fn remainder(a: int, b: int) -> int {
    a - quotient(a, b) * b
}

/// The machine can divide the one by the other.
pub open spec fn divides(a: int, b: int) -> bool {
    b != 0 && !(a == i64::MIN && b == -1)
}

/// Operations on the bits of two numbers. Shifts go by the amount modulo 64, and to the right
/// they keep the sign.
pub open spec fn bitwise(op: Op, a: i64, b: i64) -> i64 {
    let n = (b as int % 64) as u64;
    match op {
        Op::And => a & b,
        Op::Or => a | b,
        Op::Xor => a ^ b,
        Op::Shl => a << n,
        _ => a >> n,
    }
}

/// Operations on two numbers.
pub open spec fn numeric(op: Op, a: int, b: int) -> Option<int> {
    match op {
        Op::Add => Some(a + b),
        Op::Sub => Some(a - b),
        Op::Mul => Some(a * b),
        Op::SDiv => Some(quotient(a, b)),
        Op::SRem => Some(remainder(a, b)),
        _ => None,
    }
}

/// Null, or a place in memory.
pub open spec fn is_place(v: Word) -> bool {
    v is Null || v is At
}

/// What an operation does; `other` says what those do that work on fractions, or on what is
/// outside the machine.
pub open spec fn machine_op(
    other: Base<Word, Heap>,
    op: Op,
    args: Seq<Word>,
    h: Heap,
) -> Done<Word, Heap> {
    match op {
        Op::Add | Op::Sub | Op::Mul => match (args[0], args[1]) {
            (Word::Int(a), Word::Int(b)) => number(numeric(op, a as int, b as int)->0, h),
            _ => Done::Stop(h),
        },
        Op::SDiv | Op::SRem => match (args[0], args[1]) {
            (Word::Int(a), Word::Int(b)) => if divides(a as int, b as int) {
                number(numeric(op, a as int, b as int)->0, h)
            } else {
                (other.op)(op, args, h)
            },
            _ => Done::Stop(h),
        },
        Op::And | Op::Or | Op::Xor | Op::Shl | Op::AShr => match (args[0], args[1]) {
            (Word::Int(a), Word::Int(b)) => Done::Go(Word::Int(bitwise(op, a, b)), h),
            _ => Done::Stop(h),
        },
        Op::Neg => match args[0] {
            Word::Int(a) => number(-(a as int), h),
            _ => Done::Stop(h),
        },
        Op::BitNot => match args[0] {
            Word::Int(a) => Done::Go(Word::Int(!a), h),
            _ => Done::Stop(h),
        },
        Op::ICmp(pred) => match (args[0], args[1]) {
            (Word::Int(a), Word::Int(b)) => Done::Go(
                Word::Bit(compares(pred, a as int, b as int)),
                h,
            ),
            (a, b) => if is_place(a) && is_place(b) && (pred == Pred::Eq || pred == Pred::Ne) {
                Done::Go(Word::Bit((a == b) == (pred == Pred::Eq)), h)
            } else {
                Done::Stop(h)
            },
        },
        Op::Not => match args[0] {
            Word::Bit(a) => Done::Go(Word::Bit(!a), h),
            _ => Done::Stop(h),
        },
        Op::Both => match (args[0], args[1]) {
            (Word::Bit(a), Word::Bit(b)) => Done::Go(Word::Bit(a && b), h),
            _ => Done::Stop(h),
        },
        Op::Select => match args[0] {
            Word::Bit(c) => Done::Go(
                if c {
                    args[1]
                } else {
                    args[2]
                },
                h,
            ),
            _ => Done::Stop(h),
        },
        Op::IsNull => Done::Go(Word::Bit(args[0] is Null), h),
        Op::BoolToSlot => match args[0] {
            Word::Bit(x) => Done::Go(
                Word::Int(
                    if x {
                        1
                    } else {
                        0
                    },
                ),
                h,
            ),
            _ => Done::Stop(h),
        },
        Op::SlotToBool => match args[0] {
            Word::Int(n) => Done::Go(Word::Bit(n != 0), h),
            _ => Done::Stop(h),
        },
        Op::PtrToSlot | Op::SlotToPtr | Op::FloatToSlot | Op::SlotToFloat => Done::Go(args[0], h),
        Op::New(n) => allocated(Block::Slots(zeros(n as nat)), h),
        Op::NewTagged(n) => allocated(Block::Slots(zeros(n as nat + 1)), h),
        Op::Slot(i) => match args[0] {
            Word::At(k, at) => Done::Go(Word::At(k, at + 8 * i), h),
            _ => Done::Stop(h),
        },
        Op::Offset => match (args[0], args[1]) {
            (Word::At(k, at), Word::Int(n)) => Done::Go(Word::At(k, at + n), h),
            _ => Done::Stop(h),
        },
        Op::Load(_) => match args[0] {
            Word::At(k, at) => if slot_there(h, k, at) {
                Done::Go(slots(h, k)->0[at / 8], h)
            } else {
                counted(h, args[0])
            },
            _ => Done::Stop(h),
        },
        Op::Store => match args[0] {
            Word::At(k, at) => if slot_there(h, k, at) {
                Done::Go(
                    Word::Int(0),
                    with_slots(h, k, slots(h, k)->0.update(at / 8, args[1])),
                )
            } else {
                Done::Stop(h)
            },
            _ => Done::Stop(h),
        },
        Op::LoadByte => match args[0] {
            Word::At(k, at) => if bytes(h, k) is Some && 0 <= at < bytes(h, k)->0.len() {
                Done::Go(Word::Int(bytes(h, k)->0[at] as i64), h)
            } else {
                Done::Stop(h)
            },
            _ => Done::Stop(h),
        },
        Op::StoreByte => match (args[0], args[1]) {
            (Word::At(k, at), Word::Int(n)) => if bytes(h, k) is Some && 0 <= at < bytes(
                h,
                k,
            )->0.len() {
                Done::Go(
                    Word::Int(0),
                    with_bytes(h, k, bytes(h, k)->0.update(at, (n as int % 256) as u8)),
                )
            } else {
                Done::Stop(h)
            },
            _ => Done::Stop(h),
        },
        Op::Rt(Rt::Alloc) => match args[0] {
            Word::Int(n) => if n >= 0 {
                allocated(Block::Bytes(Seq::new(n as nat, |i: int| 0u8)), h)
            } else {
                Done::Stop(h)
            },
            _ => Done::Stop(h),
        },
        Op::Rt(Rt::Realloc) => match (args[0], args[1]) {
            (Word::Null, Word::Int(n)) => if n >= 0 {
                allocated(Block::Slots(zeros((n as int / 8) as nat)), h)
            } else {
                Done::Stop(h)
            },
            (Word::At(k, at), Word::Int(n)) => if n >= 0 && at == 0 && slots(h, k) is Some {
                moved(h, k, (n as int / 8) as nat)
            } else {
                Done::Stop(h)
            },
            _ => Done::Stop(h),
        },
        Op::Rt(Rt::StrLen) => match text_at(h, args[0]) {
            Some(t) => number(t.len() as int, h),
            None => Done::Stop(h),
        },
        Op::Rt(Rt::StrCpy) => copied(h, args[0], args[1], false),
        Op::Rt(Rt::StrCat) => copied(h, args[0], args[1], true),
        Op::Rt(Rt::StrCmp) => match (text_at(h, args[0]), text_at(h, args[1])) {
            (Some(a), Some(b)) => number(order(a, b), h),
            _ => Done::Stop(h),
        },
        Op::Rt(f) => runtime_op(other, f, args, h),
        _ => (other.op)(op, args, h),
    }
}

/// The primitive operations on a machine, and what `other` says of the rest.
pub open spec fn on_machine(other: Base<Word, Heap>) -> Base<Word, Heap> {
    Base {
        op: |op: Op, args: Seq<Word>, h: Heap| machine_op(other, op, args, h),
        call: other.call,
        konst: |c: OpndV| konst_word(other, c),
        truth: |v: Word| v == Word::Bit(true),
        number: |v: Word|
            match v {
                Word::Int(n) => n as int,
                _ => 0,
            },
    }
}

pub open spec fn konst_word(other: Base<Word, Heap>, c: OpndV) -> Word {
    match c {
        OpndV::Int(n) => Word::Int(n),
        OpndV::Size(n) => Word::Int(n as i64),
        OpndV::Bool(x) => Word::Bit(x),
        OpndV::Null => Word::Null,
        _ => (other.konst)(c),
    }
}

/// Every block is below the next one.
pub open spec fn is_heap(h: Heap) -> bool {
    forall|k: nat| #[trigger] h.blocks.contains_key(k) ==> k < h.next
}

/// Every block that was there is as it was, but for those given.
pub open spec fn kept_but(h: Heap, g: Heap, changed: Set<nat>) -> bool {
    &&& h.next <= g.next
    &&& forall|k: nat| #[trigger]
        h.blocks.contains_key(k) && !changed.contains(k) ==> g.blocks.contains_key(k)
            && g.blocks[k] == h.blocks[k]
}

/// A number that fits is not cut.
pub proof fn lemma_wrapped(n: int)
    requires
        i64::MIN <= n <= i64::MAX,
    ensures
        wrapped(n) == n,
{
}

/// One operation of a row.
pub proof fn lemma_do(
    other: Base<Word, Heap>,
    parts: Seq<Part>,
    i: int,
    ins: Seq<Word>,
    res: Seq<Word>,
    h: Heap,
    v: Word,
    g: Heap,
)
    requires
        0 <= i < parts.len(),
        parts[i] matches Part::Do(_, op, args) && machine_op(
            other,
            op,
            src_vals(on_machine(other), ins, res, args),
            h,
        ) == Done::Go(v, g),
    ensures
        row_from(on_machine(other), parts, i, ins, res, h) == row_from(
            on_machine(other),
            parts,
            i + 1,
            ins,
            res.push(v),
            g,
        ),
{
}

/// One check of a row.
pub proof fn lemma_check(
    other: Base<Word, Heap>,
    parts: Seq<Part>,
    i: int,
    ins: Seq<Word>,
    res: Seq<Word>,
    h: Heap,
)
    requires
        0 <= i < parts.len(),
    ensures
        parts[i] matches Part::StopIf(c, msg) ==> row_from(
            on_machine(other),
            parts,
            i,
            ins,
            res,
            h,
        ) == if src_val(on_machine(other), ins, res, c) == Word::Bit(true) {
            RowEnd::Halt(msg, h)
        } else {
            row_from(on_machine(other), parts, i + 1, ins, res, h)
        },
        parts[i] matches Part::StopUnless(c, msg) ==> row_from(
            on_machine(other),
            parts,
            i,
            ins,
            res,
            h,
        ) == if src_val(on_machine(other), ins, res, c) == Word::Bit(true) {
            row_from(on_machine(other), parts, i + 1, ins, res, h)
        } else {
            RowEnd::Halt(msg, h)
        },
{
}

} // verus!
