//! Every error of the front end can be shown in the sources of the program.
use vstd::prelude::*;
#[allow(unused_imports)]
use crate::ast::ProgramV;
#[allow(unused_imports)]
use crate::diagnostics::{
    can_show, can_underline, chars_before, index_at, is_boundary, line_end, DiagV,
};
#[allow(unused_imports)]
use crate::loader::{
    first, merge_items, module_of, on_read, on_resolved, proceed, FrameV, LoadV, LoaderV, MissV,
    WantV,
};
#[allow(unused_imports)]
use crate::places::checks::type_errors_stand_in_the_program;
#[allow(unused_imports)]
use crate::places::defs::trees_stand_in_their_text;
#[allow(unused_imports)]
use crate::places::rows::{is_cut, is_spot, spots};
#[allow(unused_imports)]
use crate::places::tree::{
    diag_in, enum_in, func_in, implies_in, lemma_program_more, program_in, struct_in,
};
#[allow(unused_imports)]
use crate::span::{FileId, SourceFileV, Span};
#[allow(unused_imports)]
use crate::text::{byte_len, byte_pos, char_width, lemma_byte_pos_mono};
#[allow(unused_imports)]
use crate::typing::checked;

verus! {

/// An offset between characters of one of the files.
pub open spec fn in_files(files: Seq<SourceFileV>) -> spec_fn(Span) -> bool {
    |s: Span| s.file.0 < files.len() && is_spot(files[s.file.0 as int].src, s.file, s)
}

/// The bytes of every file can be counted, with one to spare.
pub open spec fn files_fit(files: Seq<SourceFileV>) -> bool {
    forall|k: int| 0 <= k < files.len() ==> byte_len((#[trigger] files[k]).src) < usize::MAX
}

/// Every span that a loader holds lies in one of its files.
pub open spec fn loader_in(m: LoaderV) -> bool {
    &&& files_fit(m.load.files)
    &&& program_in(in_files(m.load.files), m.load.merged)
    &&& frames_in(in_files(m.load.files), m.stack)
    &&& match m.want {
        WantV::Resolve { span: Some(s), .. } => in_files(m.load.files)(s),
        WantV::Read { span: Some(s), .. } => in_files(m.load.files)(s),
        _ => true,
    }
}

pub open spec fn frames_in(ok: spec_fn(Span) -> bool, stack: Seq<FrameV>) -> bool {
    forall|k: int| 0 <= k < stack.len() ==> program_in(ok, (#[trigger] stack[k]).module)
}

/// The files of a loader after it was given what is in the next file.
pub open spec fn files_with(m: LoaderV, r: Result<Seq<char>, Seq<char>>) -> Seq<SourceFileV> {
    match (m.want, r) {
        (WantV::Read { path, .. }, Ok(src)) => m.load.files.push(SourceFileV { path, src }),
        _ => m.load.files,
    }
}

/// As many characters start before an offset as come before the character there.
proof fn lemma_chars_before(s: Seq<char>, i: int)
    requires
        0 <= i <= s.len(),
    ensures
        chars_before(s, byte_pos(s, i) as int) == i,
    decreases s.len(),
{
    if i == 0 {
        assert(s.take(0) =~= Seq::empty());
    } else {
        let rest = s.drop_first();
        lemma_chars_before(rest, i - 1);
        assert(s.take(i).drop_first() =~= rest.take(i - 1));
        assert(s.take(i)[0] == s[0]);
        assert(byte_pos(s, i) == char_width(s[0]) + byte_pos(rest, i - 1));
    }
}

proof fn lemma_boundary(s: Seq<char>, n: int)
    requires
        is_cut(s, n),
    ensures
        is_boundary(s, n),
        0 <= n <= byte_len(s),
        0 <= chars_before(s, n) <= s.len(),
{
    reveal(is_cut);
    let i = choose|i: int| 0 <= i <= s.len() && #[trigger] byte_pos(s, i) == n;
    lemma_chars_before(s, i);
    lemma_byte_pos_mono(s, i, s.len() as int);
    assert(s.take(s.len() as int) =~= s);
}

proof fn lemma_line_end(s: Seq<char>, k: int)
    requires
        0 <= k <= s.len(),
    ensures
        k <= line_end(s, k) <= s.len(),
    decreases s.len() - k,
{
    if k < s.len() && s[k] != '\n' {
        lemma_line_end(s, k + 1);
    }
}

/// A span that starts and ends between characters of a text can be underlined in it.
pub proof fn spots_can_be_underlined(s: Seq<char>, span: Span)
    requires
        is_spot(s, span.file, span),
    ensures
        can_underline(s, span),
{
    lemma_boundary(s, span.start as int);
    lemma_boundary(s, span.end as int);
    let last = line_end(s, index_at(s, span.start as int));
    lemma_line_end(s, index_at(s, span.start as int));
    assert(is_cut(s, byte_pos(s, last) as int)) by {
        reveal(is_cut);
    }
    lemma_boundary(s, byte_pos(s, last) as int);
}

proof fn lemma_shown(files: Seq<SourceFileV>, d: DiagV)
    requires
        files_fit(files),
        diag_in(in_files(files), d),
    ensures
        can_show(d, files),
{
    if let Some(s) = d.span {
        assert(in_files(files)(s));
        spots_can_be_underlined(files[s.file.0 as int].src, s);
    }
}

proof fn lemma_merged(ok: spec_fn(Span) -> bool, p: ProgramV, q: ProgramV)
    requires
        program_in(ok, p),
        program_in(ok, q),
    ensures
        program_in(ok, merge_items(p, q)),
{
    let all = merge_items(p, q);
    assert forall|k: int| 0 <= k < all.structs.len() implies struct_in(
        ok,
        #[trigger] all.structs[k],
    ) by {
        if k < p.structs.len() {
            assert(all.structs[k] == p.structs[k]);
        } else {
            assert(all.structs[k] == q.structs[k - p.structs.len()]);
        }
    }
    assert forall|k: int| 0 <= k < all.enums.len() implies enum_in(ok, #[trigger] all.enums[k]) by {
        if k < p.enums.len() {
            assert(all.enums[k] == p.enums[k]);
        } else {
            assert(all.enums[k] == q.enums[k - p.enums.len()]);
        }
    }
    assert forall|k: int| 0 <= k < all.funcs.len() implies func_in(ok, #[trigger] all.funcs[k]) by {
        if k < p.funcs.len() {
            assert(all.funcs[k] == p.funcs[k]);
        } else {
            assert(all.funcs[k] == q.funcs[k - p.funcs.len()]);
        }
    }
}

proof fn lemma_proceed(load: LoadV, stack: Seq<FrameV>)
    requires
        loader_in(LoaderV { load, stack, want: WantV::Done }),
    ensures
        loader_in(proceed(load, stack)),
        proceed(load, stack).load.files == load.files,
    decreases stack.len(),
{
    if stack.len() > 0 {
        let ok = in_files(load.files);
        let top = stack.last();
        assert(program_in(ok, stack[stack.len() - 1].module));
        let under = stack.drop_last();
        assert forall|k: int| 0 <= k < under.len() implies program_in(
            ok,
            (#[trigger] under[k]).module,
        ) by {
            assert(under[k] == stack[k]);
        }
        if top.next < top.module.imports.len() {
            let next = under.push(FrameV { next: top.next + 1, ..top });
            assert forall|k: int| 0 <= k < next.len() implies program_in(
                ok,
                (#[trigger] next[k]).module,
            ) by {
                if k < under.len() {
                    assert(next[k] == under[k]);
                }
            }
        } else {
            lemma_merged(ok, load.merged, top.module);
            lemma_proceed(LoadV { merged: merge_items(load.merged, top.module), ..load }, under);
        }
    }
}

/// A new loader holds no span.
pub proof fn new_loaders_hold_no_span(path: Seq<char>)
    ensures
        loader_in(first(path)),
{
}

/// What a loader makes of a full path holds spans of its files only, and its error can be
/// shown in them.
pub proof fn errors_of_paths_can_be_shown(m: LoaderV, r: Result<Seq<char>, MissV>)
    requires
        loader_in(m),
    ensures
        match on_resolved(m, r) {
            Ok(next) => loader_in(next),
            Err(d) => can_show(d, m.load.files),
        },
{
    match on_resolved(m, r) {
        Ok(next) => {
            if m.want is Resolve && r is Ok {
                lemma_proceed(m.load, m.stack);
            }
        },
        Err(d) => lemma_shown(m.load.files, d),
    }
}

proof fn lemma_more_files(files: Seq<SourceFileV>, file: SourceFileV)
    ensures
        implies_in(in_files(files), in_files(files.push(file))),
{
    let more = files.push(file);
    assert forall|s: Span| #[trigger] in_files(files)(s) implies in_files(more)(s) by {
        assert(more[s.file.0 as int] == files[s.file.0 as int]);
    }
}

/// What a loader makes of what is in a file holds spans of its files only, and its error
/// can be shown in them.
pub proof fn errors_of_files_can_be_shown(m: LoaderV, r: Result<Seq<char>, Seq<char>>)
    requires
        loader_in(m),
        m.load.files.len() <= u32::MAX,
        r matches Ok(src) ==> byte_len(src) < usize::MAX,
    ensures
        match on_read(m, r) {
            Ok(next) => loader_in(next),
            Err(d) => can_show(d, files_with(m, r)),
        },
{
    match (m.want, r) {
        (WantV::Read { path, .. }, Ok(src)) => {
            let file = SourceFileV { path, src };
            let id = FileId(m.load.files.len() as u32);
            let files = m.load.files.push(file);
            let ok = in_files(files);
            lemma_more_files(m.load.files, file);
            assert(files_fit(files)) by {
                assert forall|k: int| 0 <= k < files.len() implies byte_len(
                    (#[trigger] files[k]).src,
                ) < usize::MAX by {
                    if k < m.load.files.len() {
                        assert(files[k] == m.load.files[k]);
                    }
                }
            }
            assert(implies_in(spots(src, id), ok)) by {
                assert forall|s: Span| #[trigger] spots(src, id)(s) implies ok(s) by {
                    assert(files[s.file.0 as int] == file);
                }
            }
            trees_stand_in_their_text(src, id);
            match module_of(src, id) {
                Ok(module) => {
                    let load = LoadV { files, ..m.load };
                    let stack = m.stack.push(FrameV { path, module, next: 0 });
                    lemma_program_more(in_files(m.load.files), ok, m.load.merged);
                    lemma_program_more(spots(src, id), ok, module);
                    assert forall|k: int| 0 <= k < stack.len() implies program_in(
                        ok,
                        (#[trigger] stack[k]).module,
                    ) by {
                        if k < m.stack.len() {
                            assert(stack[k] == m.stack[k]);
                            lemma_program_more(in_files(m.load.files), ok, m.stack[k].module);
                        }
                    }
                    lemma_proceed(load, stack);
                },
                Err(d) => {
                    assert(spots(src, id)(d.span->0));
                    lemma_shown(files, d);
                },
            }
        },
        (WantV::Read { .. }, Err(_)) => lemma_shown(m.load.files, on_read(m, r)->Err_0),
        _ => {},
    }
}

/// What the type checker finds wrong with a loaded program can be shown in its files.
pub proof fn type_errors_can_be_shown(m: LoaderV)
    requires
        loader_in(m),
    ensures
        checked(m.load.merged) matches Err(d) ==> can_show(d, m.load.files),
{
    type_errors_stand_in_the_program(in_files(m.load.files), m.load.merged);
    if let Err(d) = checked(m.load.merged) {
        lemma_shown(m.load.files, d);
    }
}

} // verus!
