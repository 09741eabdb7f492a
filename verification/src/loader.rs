//! Which files a program is made of.
//!
//! A program is a file and the files that it imports, each read once. The loader names the
//! next file to look for or to read, takes what came of that, and goes on until it has
//! them all.
use crate::ast::Program;
use crate::diagnostics::Diagnostic;
use crate::lexer::lex;
use crate::parser::parse;
use crate::span::{SourceMap, Span};
use crate::text::{text_eq, utf8_len};
use vstd::prelude::*;
#[allow(unused_imports)]
use crate::ast::{program_view, ProgramV};
#[allow(unused_imports)]
use crate::diagnostics::DiagV;
#[allow(unused_imports)]
use crate::grammar;
#[allow(unused_imports)]
use crate::lexer::lexed;
#[allow(unused_imports)]
use crate::parser::lexed_tokens_are_parsable;
#[allow(unused_imports)]
use crate::span::{FileId, SourceFileV};

verus! {

/// What has been loaded: the files, the paths that were asked for, and the items of the
/// modules that are complete.
pub ghost struct LoadV {
    pub files: Seq<SourceFileV>,
    pub visited: Seq<Seq<char>>,
    pub merged: ProgramV,
}

/// A module some of whose imports are still to be loaded, from index `next` on.
pub ghost struct FrameV {
    pub path: Seq<char>,
    pub module: ProgramV,
    pub next: nat,
}

/// What a loader waits for.
pub ghost enum WantV {
    /// The full path of an imported file, which the file `from` names `path`.
    Resolve { from: Option<Seq<char>>, path: Seq<char>, span: Option<Span> },
    /// What is in a file.
    Read { path: Seq<char>, span: Option<Span> },
    Done,
}

/// What a [`Loader`] stands for.
pub ghost struct LoaderV {
    pub load: LoadV,
    pub stack: Seq<FrameV>,
    pub want: WantV,
}

/// Why a path leads to no file: the path as it was looked for, and the reason.
pub ghost struct MissV {
    pub shown: Seq<char>,
    pub reason: Seq<char>,
}

pub open spec fn no_items() -> ProgramV {
    ProgramV {
        imports: Seq::empty(),
        structs: Seq::empty(),
        enums: Seq::empty(),
        funcs: Seq::empty(),
    }
}

/// The items of `p` with those of `q` after them.
pub open spec fn merge_items(p: ProgramV, q: ProgramV) -> ProgramV {
    ProgramV {
        imports: p.imports,
        structs: p.structs + q.structs,
        enums: p.enums + q.enums,
        funcs: p.funcs + q.funcs,
    }
}

/// The error of an import: at the import, where there is one.
pub open spec fn import_diag(message: Seq<char>, span: Option<Span>) -> DiagV {
    DiagV { code: Some("E0105"@), message, span }
}

pub open spec fn not_found(miss: MissV, span: Option<Span>) -> DiagV {
    import_diag("import 先が見つかりません "@ + miss.shown + ": "@ + miss.reason, span)
}

pub open spec fn not_readable(path: Seq<char>, reason: Seq<char>, span: Option<Span>) -> DiagV {
    import_diag("ファイルを読めません "@ + path + ": "@ + reason, span)
}

/// What a loader does once a module has been dealt with: it goes on with the next import of
/// the innermost module, or completes that module.
pub open spec fn proceed(load: LoadV, stack: Seq<FrameV>) -> LoaderV
    decreases stack.len(),
{
    if stack.len() == 0 {
        LoaderV { load, stack, want: WantV::Done }
    } else {
        let top = stack.last();
        if top.next < top.module.imports.len() {
            let import = top.module.imports[top.next as int];
            LoaderV {
                load,
                stack: stack.drop_last().push(FrameV { next: top.next + 1, ..top }),
                want: WantV::Resolve {
                    from: Some(top.path),
                    path: import.path,
                    span: Some(import.span),
                },
            }
        } else {
            proceed(
                LoadV { merged: merge_items(load.merged, top.module), ..load },
                stack.drop_last(),
            )
        }
    }
}

/// What a loader does with a full path: a path that was asked for is not asked for again.
pub open spec fn on_resolved(m: LoaderV, r: Result<Seq<char>, MissV>) -> Result<LoaderV, DiagV> {
    match (m.want, r) {
        (WantV::Resolve { span, .. }, Ok(path)) => if m.load.visited.contains(path) {
            Ok(proceed(m.load, m.stack))
        } else {
            Ok(
                LoaderV {
                    load: LoadV { visited: m.load.visited.push(path), ..m.load },
                    stack: m.stack,
                    want: WantV::Read { path, span },
                },
            )
        },
        (WantV::Resolve { span, .. }, Err(miss)) => Err(not_found(miss, span)),
        _ => Ok(m),
    }
}

/// The module that a file holds.
pub open spec fn module_of(text: Seq<char>, file: FileId) -> Result<ProgramV, DiagV> {
    match lexed(text, file) {
        Ok(tokens) => grammar::program(tokens),
        Err(d) => Err(d),
    }
}

/// What a loader does with what is in a file.
pub open spec fn on_read(m: LoaderV, r: Result<Seq<char>, Seq<char>>) -> Result<LoaderV, DiagV> {
    match (m.want, r) {
        (WantV::Read { path, .. }, Ok(text)) => {
            let file = FileId(m.load.files.len() as u32);
            match module_of(text, file) {
                Ok(module) => Ok(
                    proceed(
                        LoadV {
                            files: m.load.files.push(SourceFileV { path, src: text }),
                            ..m.load
                        },
                        m.stack.push(FrameV { path, module, next: 0 }),
                    ),
                ),
                Err(d) => Err(d),
            }
        },
        (WantV::Read { path, span }, Err(reason)) => Err(not_readable(path, reason, span)),
        _ => Ok(m),
    }
}

/// The loader with one more file, and nothing else.
pub open spec fn with_file(m: LoaderV, path: Seq<char>, src: Seq<char>) -> LoaderV {
    LoaderV {
        load: LoadV { files: m.load.files.push(SourceFileV { path, src }), ..m.load },
        ..m
    }
}

/// A loader that is to load a file.
pub open spec fn first(path: Seq<char>) -> LoaderV {
    LoaderV {
        load: LoadV { files: Seq::empty(), visited: Seq::empty(), merged: no_items() },
        stack: Seq::empty(),
        want: WantV::Resolve { from: None, path, span: None },
    }
}

/// What the loader waits for.
#[derive(Debug)]
pub enum Want {
    /// The full path of a file, which the file `from` names `path`: [`Loader::resolved`].
    Resolve { from: Option<String>, path: String, span: Option<Span> },
    /// What is in a file: [`Loader::read`].
    Read { path: String, span: Option<Span> },
    /// Nothing.
    Done,
}

/// Why a path leads to no file.
#[derive(Debug)]
pub struct Miss {
    /// The path as it was looked for.
    pub shown: String,
    pub reason: String,
}

struct Frame {
    path: String,
    module: Program,
    next: usize,
}

/// Finds the files of a program.
pub struct Loader {
    sources: SourceMap,
    visited: Vec<String>,
    merged: Program,
    stack: Vec<Frame>,
    want: Want,
}

impl View for Want {
    type V = WantV;

    open spec fn view(&self) -> WantV {
        match self {
            Want::Resolve { from, path, span } => WantV::Resolve {
                from: match from {
                    Some(f) => Some(f@),
                    None => None,
                },
                path: path@,
                span: *span,
            },
            Want::Read { path, span } => WantV::Read { path: path@, span: *span },
            Want::Done => WantV::Done,
        }
    }
}

impl View for Miss {
    type V = MissV;

    open spec fn view(&self) -> MissV {
        MissV { shown: self.shown@, reason: self.reason@ }
    }
}

impl View for Frame {
    type V = FrameV;

    closed spec fn view(&self) -> FrameV {
        FrameV { path: self.path@, module: self.module@, next: self.next as nat }
    }
}

spec fn frames_view(v: Seq<Frame>) -> Seq<FrameV> {
    Seq::new(v.len(), |i: int| v[i]@)
}

spec fn paths_view(v: Seq<String>) -> Seq<Seq<char>> {
    Seq::new(v.len(), |i: int| v[i]@)
}

impl View for Loader {
    type V = LoaderV;

    closed spec fn view(&self) -> LoaderV {
        LoaderV {
            load: LoadV {
                files: self.sources@,
                visited: paths_view(self.visited@),
                merged: self.merged@,
            },
            stack: frames_view(self.stack@),
            want: self.want@,
        }
    }
}

/// What a full path came to, or why there is none.
pub open spec fn resolved_view(r: Result<String, Miss>) -> Result<Seq<char>, MissV> {
    match r {
        Ok(path) => Ok(path@),
        Err(miss) => Err(miss@),
    }
}

/// What is in a file, or why it cannot be read.
pub open spec fn read_view(r: Result<String, String>) -> Result<Seq<char>, Seq<char>> {
    match r {
        Ok(text) => Ok(text@),
        Err(reason) => Err(reason@),
    }
}

/// The error of an import: at the import, where there is one.
fn import_err(message: String, span: Option<Span>) -> (d: Diagnostic)
    ensures
        d@ == import_diag(message@, span),
{
    let d = Diagnostic::error(message).with_code("E0105");
    match span {
        Some(s) => d.at(s),
        None => d,
    }
}

fn empty_program() -> (p: Program)
    ensures
        p@ == no_items(),
{
    let p = Program {
        imports: Vec::new(),
        structs: Vec::new(),
        enums: Vec::new(),
        funcs: Vec::new(),
    };
    assert(p@.imports =~= no_items().imports);
    assert(p@.structs =~= no_items().structs);
    assert(p@.enums =~= no_items().enums);
    assert(p@.funcs =~= no_items().funcs);
    p
}

impl Loader {
    /// A loader that is to load the file at `path` and what it imports.
    pub fn new(path: String) -> (r: Loader)
        ensures
            r@ == first(path@),
    {
        let r = Loader {
            sources: SourceMap::new(),
            visited: Vec::new(),
            merged: empty_program(),
            stack: Vec::new(),
            want: Want::Resolve { from: None, path, span: None },
        };
        assert(r@.load.visited =~= Seq::empty());
        assert(r@.stack =~= Seq::empty());
        r
    }

    /// What the loader waits for.
    pub fn want(&self) -> (w: &Want)
        ensures
            w@ == self@.want,
    {
        &self.want
    }

    /// The files so far.
    pub fn sources(&self) -> (s: &SourceMap)
        ensures
            s@ == self@.load.files,
    {
        &self.sources
    }

    /// The files, and the items of all of them.
    pub fn finish(self) -> (r: (SourceMap, Program))
        ensures
            r.0@ == self@.load.files,
            r.1@ == self@.load.merged,
    {
        (self.sources, self.merged)
    }

    /// Goes on with the next import, or completes modules until there is one.
    fn advance(&mut self)
        ensures
            final(self)@ == proceed(old(self)@.load, old(self)@.stack),
        decreases old(self).stack@.len(),
    {
        let ghost before = self@;
        match self.stack.pop() {
            None => {
                self.want = Want::Done;
                assert(self@.stack =~= before.stack);
            },
            Some(mut top) => {
                proof {
                    assert(frames_view(self.stack@) =~= before.stack.drop_last());
                    assert(before.stack.last() == top@);
                }
                if top.next < top.module.imports.len() {
                    let import = &top.module.imports[top.next];
                    let path = import.path.clone();
                    let span = import.span;
                    let from = top.path.clone();
                    self.want = Want::Resolve { from: Some(from), path, span: Some(span) };
                    top.next = top.next + 1;
                    let ghost frame = top@;
                    self.stack.push(top);
                    proof {
                        assert(frame == (FrameV {
                            next: before.stack.last().next + 1,
                            ..before.stack.last()
                        }));
                        assert(self@.stack =~= before.stack.drop_last().push(frame));
                    }
                } else {
                    let ghost module = top.module@;
                    let ghost merged = self.merged@;
                    let mut module_items = top.module;
                    self.merged.structs.append(&mut module_items.structs);
                    self.merged.enums.append(&mut module_items.enums);
                    self.merged.funcs.append(&mut module_items.funcs);
                    proof {
                        assert(self.merged@.imports =~= merged.imports);
                        assert(self.merged@.structs =~= merged.structs + module.structs);
                        assert(self.merged@.enums =~= merged.enums + module.enums);
                        assert(self.merged@.funcs =~= merged.funcs + module.funcs);
                    }
                    self.advance();
                }
            },
        }
    }

    fn was_visited(&self, path: &String) -> (r: bool)
        ensures
            r == self@.load.visited.contains(path@),
    {
        let mut i: usize = 0;
        while i < self.visited.len()
            invariant
                0 <= i <= self.visited@.len(),
                forall|j: int| 0 <= j < i ==> (#[trigger] self.visited@[j])@ != path@,
            decreases self.visited@.len() - i,
        {
            if text_eq(self.visited[i].as_str(), path.as_str()) {
                assert(self@.load.visited[i as int] == path@);
                return true;
            }
            i += 1;
        }
        assert forall|j: int| 0 <= j < self@.load.visited.len() implies self@.load.visited[j]
            != path@ by {
            assert(self.visited@[j]@ != path@);
        }
        false
    }

    /// Takes the full path of the file that the loader waits for.
    pub fn resolved(&mut self, r: Result<String, Miss>) -> (out: Result<(), Diagnostic>)
        ensures
            match out {
                Ok(()) => on_resolved(old(self)@, resolved_view(r)) == Ok::<LoaderV, DiagV>(
                    final(self)@,
                ),
                Err(d) => on_resolved(old(self)@, resolved_view(r)) == Err::<LoaderV, DiagV>(d@)
                    && final(self)@ == old(self)@,
            },
    {
        let ghost before = self@;
        let span = match &self.want {
            Want::Resolve { span, .. } => *span,
            _ => {
                return Ok(());
            },
        };
        match r {
            Ok(path) => {
                if self.was_visited(&path) {
                    self.advance();
                } else {
                    self.visited.push(path.clone());
                    self.want = Want::Read { path, span };
                    proof {
                        assert(self@.load.visited =~= before.load.visited.push(path@));
                    }
                }
                Ok(())
            },
            Err(miss) => {
                let message = "import 先が見つかりません ".to_string().concat(
                    miss.shown.as_str(),
                ).concat(": ").concat(miss.reason.as_str());
                Err(import_err(message, span))
            },
        }
    }

    /// Takes what is in the file that the loader waits for.
    pub fn read(&mut self, r: Result<String, String>) -> (out: Result<(), Diagnostic>)
        requires
            old(self)@.load.files.len() <= u32::MAX,
        ensures
            match out {
                Ok(()) => on_read(old(self)@, read_view(r)) == Ok::<LoaderV, DiagV>(final(self)@),
                Err(d) => on_read(old(self)@, read_view(r)) == Err::<LoaderV, DiagV>(d@)
                    && final(self)@ == match (old(self)@.want, read_view(r)) {
                    (WantV::Read { path, .. }, Ok(src)) => with_file(old(self)@, path, src),
                    _ => old(self)@,
                },
            },
    {
        let ghost before = self@;
        let (path, span) = match &self.want {
            Want::Read { path, span } => (path.clone(), *span),
            _ => {
                return Ok(());
            },
        };
        match r {
            Ok(text) => {
                let size: usize = utf8_len(text.as_str());
                let file = self.sources.add(path.clone(), text.clone());
                assert(self@ == with_file(before, path@, text@));
                let tokens = lex(text.as_str(), file)?;
                proof {
                    lexed_tokens_are_parsable(
                        crate::token::tokens_view(tokens@),
                        text@,
                        file,
                    );
                }
                let module = parse(tokens)?;
                let frame = Frame { path, module, next: 0 };
                let ghost top = frame@;
                self.stack.push(frame);
                proof {
                    assert(self@.stack =~= before.stack.push(top));
                }
                self.advance();
                Ok(())
            },
            Err(reason) => {
                let message = "ファイルを読めません ".to_string().concat(
                    path.as_str(),
                ).concat(": ").concat(reason.as_str());
                Err(import_err(message, span))
            },
        }
    }
}


// Laws.

/// What a file system answers.
pub ghost struct Disk {
    /// The full path of what a file names by a path.
    pub resolve: spec_fn(Option<Seq<char>>, Seq<char>) -> Result<Seq<char>, MissV>,
    /// What is in a file.
    pub read: spec_fn(Seq<char>) -> Result<Seq<char>, Seq<char>>,
}

/// Loads a file: nothing where it was asked for before, else what it imports, and then its
/// own items. There is no answer where imports are nested deeper than `depth`.
pub open spec fn load_file(
    disk: Disk,
    from: Option<Seq<char>>,
    path: Seq<char>,
    span: Option<Span>,
    load: LoadV,
    depth: nat,
) -> Option<Result<LoadV, DiagV>>
    decreases depth, 0nat,
{
    if depth == 0 {
        None
    } else {
        match (disk.resolve)(from, path) {
            Err(miss) => Some(Err(not_found(miss, span))),
            Ok(full) => if load.visited.contains(full) {
                Some(Ok(load))
            } else {
                match (disk.read)(full) {
                    Err(reason) => Some(Err(not_readable(full, reason, span))),
                    Ok(src) => match module_of(src, FileId(load.files.len() as u32)) {
                        Err(d) => Some(Err(d)),
                        Ok(module) => load_imports(
                            disk,
                            full,
                            module,
                            0,
                            LoadV {
                                files: load.files.push(SourceFileV { path: full, src }),
                                visited: load.visited.push(full),
                                ..load
                            },
                            (depth - 1) as nat,
                        ),
                    },
                }
            },
        }
    }
}

/// Loads the imports of a module from index `k` on, and then its items.
pub open spec fn load_imports(
    disk: Disk,
    at: Seq<char>,
    module: ProgramV,
    k: nat,
    load: LoadV,
    depth: nat,
) -> Option<Result<LoadV, DiagV>>
    decreases depth, (if k < module.imports.len() { module.imports.len() - k } else { 0 }) as nat,
{
    if k >= module.imports.len() {
        Some(Ok(LoadV { merged: merge_items(load.merged, module), ..load }))
    } else {
        let import = module.imports[k as int];
        match load_file(disk, Some(at), import.path, Some(import.span), load, depth) {
            Some(Ok(next)) => load_imports(disk, at, module, k + 1, next, depth),
            other => other,
        }
    }
}

/// One step of a loader on a file system.
pub open spec fn step(disk: Disk, m: LoaderV) -> Result<LoaderV, DiagV> {
    match m.want {
        WantV::Resolve { from, path, .. } => on_resolved(m, (disk.resolve)(from, path)),
        WantV::Read { path, .. } => on_read(m, (disk.read)(path)),
        WantV::Done => Ok(m),
    }
}

/// `n` steps of a loader on a file system.
pub open spec fn run(disk: Disk, m: LoaderV, n: nat) -> Result<LoaderV, DiagV>
    decreases n,
{
    if n == 0 {
        Ok(m)
    } else {
        match step(disk, m) {
            Ok(next) => run(disk, next, (n - 1) as nat),
            Err(d) => Err(d),
        }
    }
}

proof fn lemma_run_on(disk: Disk, m: LoaderV, mid: LoaderV, a: nat, b: nat)
    requires
        run(disk, m, a) == Ok::<LoaderV, DiagV>(mid),
    ensures
        run(disk, m, a + b) == run(disk, mid, b),
    decreases a,
{
    if a > 0 {
        lemma_run_on(disk, step(disk, m)->Ok_0, mid, (a - 1) as nat, b);
    }
}

/// What comes of a number of steps: the end is reached, or the error met.
pub open spec fn comes_to(disk: Disk, m: LoaderV, end: Result<LoaderV, DiagV>) -> bool {
    exists|n: nat| #[trigger] run(disk, m, n) == end
}

proof fn lemma_comes_on(disk: Disk, m: LoaderV, mid: LoaderV, end: Result<LoaderV, DiagV>)
    requires
        comes_to(disk, m, Ok(mid)),
        comes_to(disk, mid, end),
    ensures
        comes_to(disk, m, end),
{
    let a = choose|n: nat| #[trigger] run(disk, m, n) == Ok::<LoaderV, DiagV>(mid);
    let b = choose|n: nat| #[trigger] run(disk, mid, n) == end;
    lemma_run_on(disk, m, mid, a, b);
}

proof fn lemma_comes_step(disk: Disk, m: LoaderV, end: Result<LoaderV, DiagV>)
    requires
        match step(disk, m) {
            Ok(next) => comes_to(disk, next, end),
            Err(d) => end == Err::<LoaderV, DiagV>(d),
        },
    ensures
        comes_to(disk, m, end),
{
    match step(disk, m) {
        Ok(next) => {
            let n = choose|n: nat| #[trigger] run(disk, next, n) == end;
            assert(run(disk, m, n + 1) == end);
        },
        Err(d) => {
            assert(run(disk, m, 1) == end);
        },
    }
}

proof fn lemma_here(disk: Disk, m: LoaderV)
    ensures
        comes_to(disk, m, Ok(m)),
{
    assert(run(disk, m, 0) == Ok::<LoaderV, DiagV>(m));
}

proof fn lemma_loads_file(
    disk: Disk,
    from: Option<Seq<char>>,
    path: Seq<char>,
    span: Option<Span>,
    load: LoadV,
    stack: Seq<FrameV>,
    depth: nat,
)
    ensures
        ({
            let m = LoaderV { load, stack, want: WantV::Resolve { from, path, span } };
            match load_file(disk, from, path, span, load, depth) {
                Some(Ok(end)) => comes_to(disk, m, Ok(proceed(end, stack))),
                Some(Err(d)) => comes_to(disk, m, Err(d)),
                None => true,
            }
        }),
    decreases depth, 0nat,
{
    let m = LoaderV { load, stack, want: WantV::Resolve { from, path, span } };
    let answer = load_file(disk, from, path, span, load, depth);
    if depth > 0 {
        match (disk.resolve)(from, path) {
            Err(miss) => {
                lemma_comes_step(disk, m, Err(not_found(miss, span)));
            },
            Ok(full) => {
                if load.visited.contains(full) {
                    lemma_here(disk, proceed(load, stack));
                    lemma_comes_step(disk, m, Ok(proceed(load, stack)));
                } else {
                    let asked = LoadV { visited: load.visited.push(full), ..load };
                    let m2 = LoaderV { load: asked, stack, want: WantV::Read { path: full, span } };
                    match (disk.read)(full) {
                        Err(reason) => {
                            let d = not_readable(full, reason, span);
                            lemma_comes_step(disk, m2, Err(d));
                            lemma_comes_step(disk, m, Err(d));
                        },
                        Ok(src) => match module_of(src, FileId(load.files.len() as u32)) {
                            Err(d) => {
                                lemma_comes_step(disk, m2, Err(d));
                                lemma_comes_step(disk, m, Err(d));
                            },
                            Ok(module) => {
                                let with = LoadV {
                                    files: load.files.push(SourceFileV { path: full, src }),
                                    ..asked
                                };
                                lemma_loads_imports(
                                    disk,
                                    full,
                                    module,
                                    0,
                                    with,
                                    stack,
                                    (depth - 1) as nat,
                                );
                                match answer {
                                    Some(Ok(end)) => {
                                        lemma_comes_step(disk, m2, Ok(proceed(end, stack)));
                                        lemma_comes_step(disk, m, Ok(proceed(end, stack)));
                                    },
                                    Some(Err(d)) => {
                                        lemma_comes_step(disk, m2, Err(d));
                                        lemma_comes_step(disk, m, Err(d));
                                    },
                                    None => {},
                                }
                            },
                        },
                    }
                }
            },
        }
    }
}

proof fn lemma_loads_imports(
    disk: Disk,
    at: Seq<char>,
    module: ProgramV,
    k: nat,
    load: LoadV,
    stack: Seq<FrameV>,
    depth: nat,
)
    ensures
        ({
            let m = proceed(load, stack.push(FrameV { path: at, module, next: k }));
            match load_imports(disk, at, module, k, load, depth) {
                Some(Ok(end)) => comes_to(disk, m, Ok(proceed(end, stack))),
                Some(Err(d)) => comes_to(disk, m, Err(d)),
                None => true,
            }
        }),
    decreases depth, (if k < module.imports.len() { module.imports.len() - k } else { 0 }) as nat,
{
    let frames = stack.push(FrameV { path: at, module, next: k });
    let m = proceed(load, frames);
    assert(frames.drop_last() =~= stack);
    if k >= module.imports.len() {
        lemma_here(disk, m);
    } else {
        let import = module.imports[k as int];
        let next_frames = stack.push(FrameV { path: at, module, next: k + 1 });
        lemma_loads_file(
            disk,
            Some(at),
            import.path,
            Some(import.span),
            load,
            next_frames,
            depth,
        );
        match load_file(disk, Some(at), import.path, Some(import.span), load, depth) {
            Some(Ok(next)) => {
                lemma_loads_imports(disk, at, module, k + 1, next, stack, depth);
                match load_imports(disk, at, module, k + 1, next, depth) {
                    Some(Ok(end)) => {
                        lemma_comes_on(
                            disk,
                            m,
                            proceed(next, next_frames),
                            Ok(proceed(end, stack)),
                        );
                    },
                    Some(Err(d)) => {
                        lemma_comes_on(disk, m, proceed(next, next_frames), Err(d));
                    },
                    None => {},
                }
            },
            _ => {},
        }
    }
}

/// The steps of a loader come to what loading a file, then all that it imports, comes to.
pub proof fn steps_load_the_program(disk: Disk, path: Seq<char>, depth: nat)
    ensures
        match load_file(disk, None, path, None, first(path).load, depth) {
            Some(Ok(load)) => comes_to(
                disk,
                first(path),
                Ok(LoaderV { load, stack: Seq::empty(), want: WantV::Done }),
            ),
            Some(Err(d)) => comes_to(disk, first(path), Err(d)),
            None => true,
        },
{
    lemma_loads_file(disk, None, path, None, first(path).load, Seq::empty(), depth);
}

/// Every full path is one of these.
pub open spec fn leads_into(disk: Disk, names: Set<Seq<char>>) -> bool {
    forall|from: Option<Seq<char>>, path: Seq<char>|
        match #[trigger] (disk.resolve)(from, path) {
            Ok(full) => names.contains(full),
            Err(_) => true,
        }
}

/// No path was asked for twice, and the files are those that were asked for.
pub open spec fn is_load(load: LoadV, names: Set<Seq<char>>) -> bool {
    &&& load.visited.no_duplicates()
    &&& forall|i: int| 0 <= i < load.visited.len() ==> names.contains(#[trigger] load.visited[i])
    &&& load.files.len() == load.visited.len()
    &&& forall|i: int|
        0 <= i < load.files.len() ==> (#[trigger] load.files[i]).path == load.visited[i]
}

proof fn lemma_visited_fit(load: LoadV, names: Set<Seq<char>>)
    requires
        names.finite(),
        is_load(load, names),
    ensures
        load.visited.len() <= names.len(),
{
    load.visited.unique_seq_to_set();
    assert(load.visited.to_set().subset_of(names));
    vstd::set_lib::lemma_len_subset(load.visited.to_set(), names);
}

proof fn lemma_file_ends(
    disk: Disk,
    names: Set<Seq<char>>,
    from: Option<Seq<char>>,
    path: Seq<char>,
    span: Option<Span>,
    load: LoadV,
    depth: nat,
)
    requires
        names.finite(),
        leads_into(disk, names),
        is_load(load, names),
        depth > names.len() - load.visited.len(),
    ensures
        match load_file(disk, from, path, span, load, depth) {
            Some(Ok(end)) => is_load(end, names) && end.visited.len() >= load.visited.len(),
            Some(Err(_)) => true,
            None => false,
        },
    decreases depth, 0nat,
{
    lemma_visited_fit(load, names);
    match (disk.resolve)(from, path) {
        Ok(full) => {
            if !load.visited.contains(full) {
                match (disk.read)(full) {
                    Ok(src) => match module_of(src, FileId(load.files.len() as u32)) {
                        Ok(module) => {
                            let with = LoadV {
                                files: load.files.push(SourceFileV { path: full, src }),
                                visited: load.visited.push(full),
                                ..load
                            };
                            assert(is_load(with, names)) by {
                                assert forall|i: int, j: int|
                                    0 <= i < with.visited.len() && 0 <= j < with.visited.len() && i
                                        != j implies with.visited[i] != with.visited[j] by {
                                    assert(forall|l: int|
                                        0 <= l < load.visited.len() ==> load.visited[l] != full);
                                }
                            }
                            lemma_visited_fit(with, names);
                            lemma_imports_end(
                                disk,
                                names,
                                full,
                                module,
                                0,
                                with,
                                (depth - 1) as nat,
                            );
                        },
                        Err(_) => {},
                    },
                    Err(_) => {},
                }
            }
        },
        Err(_) => {},
    }
}

proof fn lemma_imports_end(
    disk: Disk,
    names: Set<Seq<char>>,
    at: Seq<char>,
    module: ProgramV,
    k: nat,
    load: LoadV,
    depth: nat,
)
    requires
        names.finite(),
        leads_into(disk, names),
        is_load(load, names),
        depth > names.len() - load.visited.len(),
    ensures
        match load_imports(disk, at, module, k, load, depth) {
            Some(Ok(end)) => is_load(end, names) && end.visited.len() >= load.visited.len(),
            Some(Err(_)) => true,
            None => false,
        },
    decreases depth, (if k < module.imports.len() { module.imports.len() - k } else { 0 }) as nat,
{
    if k < module.imports.len() {
        let import = module.imports[k as int];
        lemma_file_ends(disk, names, Some(at), import.path, Some(import.span), load, depth);
        match load_file(disk, Some(at), import.path, Some(import.span), load, depth) {
            Some(Ok(next)) => {
                lemma_imports_end(disk, names, at, module, k + 1, next, depth);
            },
            _ => {},
        }
    }
}

/// Loading comes to an end where there are finitely many files, whatever they import, and
/// reads no file twice.
pub proof fn loading_ends(disk: Disk, names: Set<Seq<char>>, path: Seq<char>)
    requires
        names.finite(),
        leads_into(disk, names),
    ensures
        match load_file(disk, None, path, None, first(path).load, names.len() + 1) {
            Some(Ok(load)) => is_load(load, names) && comes_to(
                disk,
                first(path),
                Ok(LoaderV { load, stack: Seq::empty(), want: WantV::Done }),
            ),
            Some(Err(d)) => comes_to(disk, first(path), Err(d)),
            None => false,
        },
{
    lemma_file_ends(disk, names, None, path, None, first(path).load, names.len() + 1);
    steps_load_the_program(disk, path, names.len() + 1);
}

/// A file that is imported a second time changes nothing.
pub proof fn second_import_changes_nothing(
    disk: Disk,
    from: Option<Seq<char>>,
    path: Seq<char>,
    span: Option<Span>,
    load: LoadV,
    depth: nat,
)
    requires
        depth > 0,
        (disk.resolve)(from, path) matches Ok(full) && load.visited.contains(full),
    ensures
        load_file(disk, from, path, span, load, depth) == Some(Ok::<LoadV, DiagV>(load)),
{
}

/// The items of a module stand after those of what it imports.
pub proof fn module_comes_after_its_imports(
    disk: Disk,
    at: Seq<char>,
    module: ProgramV,
    k: nat,
    load: LoadV,
    depth: nat,
)
    ensures
        load_imports(disk, at, module, k, load, depth) matches Some(Ok(end)) ==> exists|
            imported: ProgramV,
        |
            end.merged == #[trigger] merge_items(imported, module),
    decreases (if k < module.imports.len() { module.imports.len() - k } else { 0 }),
{
    if k >= module.imports.len() {
        assert(merge_items(load.merged, module) == merge_items(load.merged, module));
    } else {
        let import = module.imports[k as int];
        match load_file(disk, Some(at), import.path, Some(import.span), load, depth) {
            Some(Ok(next)) => {
                module_comes_after_its_imports(disk, at, module, k + 1, next, depth);
            },
            _ => {},
        }
    }
}

} // verus!
