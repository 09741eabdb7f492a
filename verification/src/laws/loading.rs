//! What a loaded program is made of.
use vstd::prelude::*;
#[allow(unused_imports)]
use crate::ast::{EnumDefV, FunctionV, ProgramV, StructDefV};
#[allow(unused_imports)]
use crate::diagnostics::DiagV;
#[allow(unused_imports)]
use crate::loader::{
    first, module_of, on_read, on_resolved, proceed, run, step, Disk, FrameV, LoadV, LoaderV,
    WantV,
};
#[allow(unused_imports)]
use crate::span::{FileId, SourceFileV};

verus! {

/// The file at an index holds a module.
#[verifier::opaque]
pub open spec fn is_module(src: Seq<char>, i: int) -> bool {
    module_of(src, FileId(i as u32)) is Ok
}

/// The module that a file holds, which is the one at an index.
#[verifier::opaque]
pub open spec fn module_in(src: Seq<char>, i: int) -> ProgramV {
    module_of(src, FileId(i as u32))->Ok_0
}

/// The module that the file at an index holds.
pub open spec fn module_at(files: Seq<SourceFileV>, i: int) -> ProgramV {
    module_in(files[i].src, i)
}

/// The structures of the files that `order` names, one file after the other.
pub open spec fn structs_in(files: Seq<SourceFileV>, order: Seq<int>) -> Seq<StructDefV>
    decreases order.len(),
{
    if order.len() == 0 {
        Seq::empty()
    } else {
        structs_in(files, order.drop_last()) + module_at(files, order.last()).structs
    }
}

/// The sum types of the files that `order` names, one file after the other.
pub open spec fn enums_in(files: Seq<SourceFileV>, order: Seq<int>) -> Seq<EnumDefV>
    decreases order.len(),
{
    if order.len() == 0 {
        Seq::empty()
    } else {
        enums_in(files, order.drop_last()) + module_at(files, order.last()).enums
    }
}

/// The functions of the files that `order` names, one file after the other.
pub open spec fn funcs_in(files: Seq<SourceFileV>, order: Seq<int>) -> Seq<FunctionV>
    decreases order.len(),
{
    if order.len() == 0 {
        Seq::empty()
    } else {
        funcs_in(files, order.drop_last()) + module_at(files, order.last()).funcs
    }
}

/// Each of the first `n` numbers, once.
pub open spec fn is_arrangement(order: Seq<int>, n: nat) -> bool {
    &&& order.len() == n
    &&& forall|i: int| 0 <= i < order.len() ==> 0 <= #[trigger] order[i] < n
    &&& forall|i: int, j: int| 0 <= i < j < order.len() ==> order[i] != order[j]
}

/// The files of the modules that are not complete, the innermost first.
spec fn are_open(files: Seq<SourceFileV>, stack: Seq<FrameV>, open: Seq<int>) -> bool {
    &&& open.len() == stack.len()
    &&& forall|i: int|
        0 <= i < open.len() ==> 0 <= #[trigger] open[i] < files.len() && stack[stack.len() - 1 - i]
            == (FrameV {
            path: files[open[i]].path,
            module: module_at(files, open[i]),
            next: stack[stack.len() - 1 - i].next,
        })
}

/// Every file is complete, and its items are there, or it is open.
spec fn accounts(load: LoadV, stack: Seq<FrameV>, done: Seq<int>, open: Seq<int>) -> bool {
    &&& is_arrangement(done + open, load.files.len())
    &&& are_open(load.files, stack, open)
    &&& load.merged.structs == structs_in(load.files, done)
    &&& load.merged.enums == enums_in(load.files, done)
    &&& load.merged.funcs == funcs_in(load.files, done)
    &&& forall|i: int|
        0 <= i < load.files.len() ==> is_module((#[trigger] load.files[i]).src, i)
}

spec fn is_accounted(m: LoaderV) -> bool {
    &&& exists|done: Seq<int>, open: Seq<int>| #[trigger] accounts(m.load, m.stack, done, open)
    &&& m.want is Done ==> m.stack.len() == 0
}

/// One more file changes nothing about those that there were.
proof fn lemma_more_files(files: Seq<SourceFileV>, more: Seq<SourceFileV>, order: Seq<int>)
    requires
        files.len() <= more.len(),
        forall|i: int| 0 <= i < files.len() ==> #[trigger] more[i] == files[i],
        forall|i: int| 0 <= i < order.len() ==> 0 <= #[trigger] order[i] < files.len(),
    ensures
        structs_in(more, order) == structs_in(files, order),
        enums_in(more, order) == enums_in(files, order),
        funcs_in(more, order) == funcs_in(files, order),
    decreases order.len(),
{
    if order.len() > 0 {
        let rest = order.drop_last();
        assert forall|i: int| 0 <= i < rest.len() implies 0 <= #[trigger] rest[i] < files.len() by {
            assert(rest[i] == order[i]);
        }
        lemma_more_files(files, more, rest);
        assert(more[order.last()] == files[order.last()]);
    }
}

proof fn lemma_proceed(load: LoadV, stack: Seq<FrameV>, done: Seq<int>, open: Seq<int>)
    requires
        accounts(load, stack, done, open),
    ensures
        is_accounted(proceed(load, stack)),
        proceed(load, stack).load.files == load.files,
        proceed(load, stack).want is Done || proceed(load, stack).want is Resolve,
    decreases stack.len(),
{
    let r = proceed(load, stack);
    if stack.len() == 0 {
        assert(accounts(r.load, r.stack, done, open));
    } else {
        let top = stack.last();
        assert(stack[stack.len() - 1 - 0] == top);
        assert(open[0] == open[0]);
        if top.next < top.module.imports.len() {
            let next = stack.drop_last().push(FrameV { next: top.next + 1, ..top });
            assert forall|i: int| 0 <= i < open.len() implies 0 <= #[trigger] open[i]
                < load.files.len() && next[next.len() - 1 - i] == (FrameV {
                path: load.files[open[i]].path,
                module: module_at(load.files, open[i]),
                next: next[next.len() - 1 - i].next,
            }) by {
                if i > 0 {
                    assert(next[next.len() - 1 - i] == stack[stack.len() - 1 - i]);
                }
            }
            assert(r.stack == next && r.load == load);
            assert(accounts(r.load, r.stack, done, open));
        } else {
            let more = done.push(open[0]);
            let rest = open.drop_first();
            assert(more + rest =~= done + open);
            assert(more.drop_last() =~= done);
            let merged = crate::loader::merge_items(load.merged, top.module);
            let after = LoadV { merged, ..load };
            let below = stack.drop_last();
            assert(top.module == module_at(load.files, open[0]));
            assert forall|i: int| 0 <= i < rest.len() implies 0 <= #[trigger] rest[i]
                < load.files.len() && below[below.len() - 1 - i] == (FrameV {
                path: load.files[rest[i]].path,
                module: module_at(load.files, rest[i]),
                next: below[below.len() - 1 - i].next,
            }) by {
                assert(rest[i] == open[i + 1]);
                assert(below[below.len() - 1 - i] == stack[stack.len() - 1 - (i + 1)]);
            }
            assert(accounts(after, below, more, rest));
            lemma_proceed(after, below, more, rest);
        }
    }
}

proof fn lemma_read(
    load: LoadV,
    stack: Seq<FrameV>,
    done: Seq<int>,
    open: Seq<int>,
    file: SourceFileV,
)
    requires
        accounts(load, stack, done, open),
        is_module(file.src, load.files.len() as int),
    ensures
        accounts(
            LoadV { files: load.files.push(file), ..load },
            stack.push(
                FrameV {
                    path: file.path,
                    module: module_in(file.src, load.files.len() as int),
                    next: 0,
                },
            ),
            done,
            seq![load.files.len() as int] + open,
        ),
{
    let n = load.files.len() as int;
    let files = load.files.push(file);
    let module = module_in(file.src, n);
    let frames = stack.push(FrameV { path: file.path, module, next: 0 });
    let more = seq![n] + open;
    let was = done + open;
    let all = done + more;
    assert forall|i: int| 0 <= i < done.len() implies 0 <= #[trigger] done[i] < n by {
        assert(was[i] == done[i]);
    }
    lemma_more_files(load.files, files, done);
    assert forall|i: int| 0 <= i < all.len() implies (#[trigger] all[i] == if i < done.len() {
        was[i]
    } else if i == done.len() {
        n
    } else {
        was[i - 1]
    }) by {}
    assert(is_arrangement(all, files.len())) by {
        assert forall|i: int, j: int| 0 <= i < j < all.len() implies all[i] != all[j] by {
            assert(forall|k: int| 0 <= k < was.len() ==> 0 <= #[trigger] was[k] < n);
        }
    }
    assert(are_open(files, frames, more)) by {
        assert forall|i: int| 0 <= i < more.len() implies 0 <= #[trigger] more[i] < files.len()
            && frames[frames.len() - 1 - i] == (FrameV {
            path: files[more[i]].path,
            module: module_at(files, more[i]),
            next: frames[frames.len() - 1 - i].next,
        }) by {
            if i > 0 {
                assert(more[i] == open[i - 1]);
                assert(frames[frames.len() - 1 - i] == stack[stack.len() - 1 - (i - 1)]);
                assert(files[open[i - 1]] == load.files[open[i - 1]]);
            }
        }
    }
    assert forall|i: int| 0 <= i < files.len() implies is_module(
        (#[trigger] files[i]).src,
        i,
    ) by {
        if i < n {
            assert(files[i] == load.files[i]);
        }
    }
}

/// What a loader does with what is in a file, where that is a module.
proof fn lemma_on_read(m: LoaderV, path: Seq<char>, src: Seq<char>)
    requires
        m.want matches WantV::Read { path: p, .. } && p == path,
    ensures
        on_read(m, Ok(src)) matches Ok(next) ==> is_module(src, m.load.files.len() as int) && next
            == proceed(
            LoadV { files: m.load.files.push(SourceFileV { path, src }), ..m.load },
            m.stack.push(
                FrameV { path, module: module_in(src, m.load.files.len() as int), next: 0 },
            ),
        ),
{
    reveal(is_module);
    reveal(module_in);
}

proof fn lemma_resolved(m: LoaderV, full: Seq<char>)
    requires
        is_accounted(m),
        m.want is Resolve,
    ensures
        on_resolved(m, Ok(full)) matches Ok(next) && is_accounted(next),
{
    let (done, open) = choose|done: Seq<int>, open: Seq<int>| #[trigger]
        accounts(m.load, m.stack, done, open);
    if m.load.visited.contains(full) {
        lemma_proceed(m.load, m.stack, done, open);
    } else {
        let asked = LoadV { visited: m.load.visited.push(full), ..m.load };
        let next = on_resolved(m, Ok(full))->Ok_0;
        assert(accounts(next.load, next.stack, done, open));
    }
}

proof fn lemma_step(disk: Disk, m: LoaderV)
    requires
        is_accounted(m),
    ensures
        step(disk, m) matches Ok(next) ==> is_accounted(next),
{
    match m.want {
        WantV::Resolve { from, path, span } => match (disk.resolve)(from, path) {
            Ok(full) => lemma_resolved(m, full),
            Err(_) => {},
        },
        WantV::Read { path, span } => match (disk.read)(path) {
            Ok(src) => {
                lemma_on_read(m, path, src);
                if on_read(m, Ok(src)) is Ok {
                    let (done, open) = choose|done: Seq<int>, open: Seq<int>| #[trigger]
                        accounts(m.load, m.stack, done, open);
                    let n = m.load.files.len() as int;
                    let file = SourceFileV { path, src };
                    lemma_read(m.load, m.stack, done, open, file);
                    lemma_proceed(
                        LoadV { files: m.load.files.push(file), ..m.load },
                        m.stack.push(FrameV { path, module: module_in(src, n), next: 0 }),
                        done,
                        seq![n] + open,
                    );
                }
            },
            Err(_) => {},
        },
        WantV::Done => {},
    }
}

proof fn lemma_run(disk: Disk, m: LoaderV, n: nat)
    requires
        is_accounted(m),
    ensures
        run(disk, m, n) matches Ok(end) ==> is_accounted(end),
    decreases n,
{
    if n > 0 {
        lemma_step(disk, m);
        if let Ok(next) = step(disk, m) {
            lemma_run(disk, next, (n - 1) as nat);
        }
    }
}

/// When loading has come to its end, every file that was read holds a module, and the program
/// holds what these modules define, each file once: its structures are those of the files one
/// after the other, and so are its sum types and its functions.
pub proof fn every_definition_is_loaded_once(disk: Disk, path: Seq<char>, n: nat, m: LoaderV)
    requires
        run(disk, first(path), n) == Ok::<LoaderV, DiagV>(m),
        m.want is Done,
    ensures
        forall|i: int|
            0 <= i < m.load.files.len() ==> is_module((#[trigger] m.load.files[i]).src, i),
        exists|order: Seq<int>| #[trigger]
            is_arrangement(order, m.load.files.len()) && m.load.merged.structs == structs_in(
                m.load.files,
                order,
            ) && m.load.merged.enums == enums_in(m.load.files, order) && m.load.merged.funcs
                == funcs_in(m.load.files, order),
{
    let start = first(path);
    let none = Seq::<int>::empty();
    assert(accounts(start.load, start.stack, none, none));
    lemma_run(disk, start, n);
    let (done, open) = choose|done: Seq<int>, open: Seq<int>| #[trigger]
        accounts(m.load, m.stack, done, open);
    assert(done + open =~= done);
}

} // verus!
