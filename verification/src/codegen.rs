//! From a program to what LLVM takes it to be.
use crate::assembly::assembly;
use crate::ast::Program;
use crate::blocks::{flatten, FlatFunc};
use crate::diagnostics::Diagnostic;
use crate::ir::IrModule;
use crate::lower::lower_program;
use crate::text::append_dec;
use inkwell::context::Context;
use inkwell::memory_buffer::MemoryBuffer;
use inkwell::passes::PassBuilderOptions;
use inkwell::support::LLVMString;
use inkwell::targets::{
    CodeModel, InitializationConfig, RelocMode, Target, TargetMachine, TargetTriple,
};
use inkwell::OptimizationLevel;
use vstd::prelude::*;
#[allow(unused_imports)]
use crate::assembly::{flats_view, module_text};
#[allow(unused_imports)]
use crate::blocks::{flat_func, size, FlatFuncV};
#[allow(unused_imports)]
use crate::diagnostics::DiagV;
#[allow(unused_imports)]
use crate::ir::{codes_view, func_view, IrFuncV};
#[allow(unused_imports)]
use crate::text::dec_text;
#[allow(unused_imports)]
use crate::{lowering, typing};

verus! {

/// What LLVM answers to the text of a module of this name: how it writes the module, or
/// what is wrong with it.
pub uninterp spec fn llvm_reading(name: Seq<char>, text: Seq<char>) -> Result<
    Seq<char>,
    Seq<char>,
>;

/// `Context::create_module_from_ir` of `inkwell` on the text, then `Module::verify`, then
/// `Module::print_to_string`: the module as LLVM writes it, or what LLVM says is wrong with
/// it. That depends on the name and the text alone. The name may hold no null character,
/// which `inkwell` could not hand on.
#[verifier::external_body]
fn read_module(name: &str, text: &str) -> (r: Result<String, String>)
    requires
        !name@.contains('\0'),
    ensures
        reading_view(r) == llvm_reading(name@, text@),
{
    let context = Context::create();
    let buffer = MemoryBuffer::create_from_memory_range_copy(text.as_bytes(), name);
    let module = context.create_module_from_ir(buffer).map_err(|e| e.to_string())?;
    module.verify().map_err(|e| e.to_string())?;
    Ok(module.print_to_string().to_string())
}

/// The kind of machine that the program runs on, as LLVM calls it:
/// `TargetMachine::get_default_triple` of `inkwell`. What it is depends on the machine; LLVM
/// hands it over with a null character behind it, so that none is in it.
#[verifier::external_body]
fn host_triple() -> (r: String)
    ensures
        !r@.contains('\0'),
{
    TargetMachine::get_default_triple().as_str().to_string_lossy().into_owned()
}

/// What LLVM makes of the module of this name and text by these passes, for machines of a
/// kind, with a processor and its features: how it then writes the module, what it says went
/// wrong, or nothing where it knows no such machine.
pub uninterp spec fn llvm_passed(
    name: Seq<char>,
    text: Seq<char>,
    passes: Seq<char>,
    triple: Seq<char>,
    cpu: Seq<char>,
    features: Seq<char>,
) -> Result<Seq<char>, Option<Seq<char>>>;

/// `Module::run_passes` of `inkwell` on the module that `Context::create_module_from_ir`
/// makes of the text and that `Module::verify` has taken, for the machine that
/// `Target::from_triple` and `Target::create_target_machine` make of the kind, the processor
/// and the features; then `Module::print_to_string`. That depends on the arguments alone:
/// nothing else is asked of the machine that this runs on. None of the names may hold a null
/// character, which `inkwell` could not hand on.
#[verifier::external_body]
fn run_passes(
    name: &str,
    text: &str,
    passes: &str,
    triple: &str,
    cpu: &str,
    features: &str,
) -> (r: Result<String, Option<String>>)
    requires
        !name@.contains('\0'),
        !passes@.contains('\0'),
        !triple@.contains('\0'),
        !cpu@.contains('\0'),
        !features@.contains('\0'),
    ensures
        passed_view(r) == llvm_passed(name@, text@, passes@, triple@, cpu@, features@),
{
    Target::initialize_all(&InitializationConfig::default());
    let said = |e: LLVMString| Some(e.to_string());
    let triple = TargetTriple::create(triple);
    let target = Target::from_triple(&triple).map_err(said)?;
    let (level, reloc) = (OptimizationLevel::Default, RelocMode::PIC);
    let machine = target
        .create_target_machine(&triple, cpu, features, level, reloc, CodeModel::Default)
        .ok_or(None)?;
    let context = Context::create();
    let buffer = MemoryBuffer::create_from_memory_range_copy(text.as_bytes(), name);
    let module = context.create_module_from_ir(buffer).map_err(said)?;
    module.verify().map_err(said)?;
    module.run_passes(passes, &machine, PassBuilderOptions::create()).map_err(said)?;
    Ok(module.print_to_string().to_string())
}

pub open spec fn passed_view(r: Result<String, Option<String>>) -> Result<
    Seq<char>,
    Option<Seq<char>>,
> {
    match r {
        Ok(s) => Ok(s@),
        Err(Some(s)) => Err(Some(s@)),
        Err(None) => Err(None),
    }
}

/// What to go on with after the passes: the module as LLVM writes it, or what went wrong.
pub open spec fn optimized_view(r: Result<Seq<char>, Option<Seq<char>>>) -> Result<
    Seq<char>,
    Seq<char>,
> {
    match r {
        Ok(s) => Ok(s),
        Err(Some(s)) => Err(s),
        Err(None) => Err("ターゲットマシンを作成できません"@),
    }
}

/// What to go on with after the passes.
pub fn optimized(passed: Result<String, Option<String>>) -> (r: Result<String, String>)
    ensures
        reading_view(r) == optimized_view(passed_view(passed)),
{
    match passed {
        Ok(s) => Ok(s),
        Err(Some(s)) => Err(s),
        Err(None) => Err("ターゲットマシンを作成できません".to_string()),
    }
}

/// What the passes of a level make of a module, for the machines of a kind.
pub open spec fn passes_give(
    name: Seq<char>,
    text: Seq<char>,
    level: u8,
    triple: Seq<char>,
) -> Result<Seq<char>, Seq<char>> {
    optimized_view(llvm_passed(name, text, passes_text(level), triple, "generic"@, ""@))
}

pub open spec fn reading_view(r: Result<String, String>) -> Result<Seq<char>, Seq<char>> {
    match r {
        Ok(s) => Ok(s@),
        Err(s) => Err(s@),
    }
}

/// The functions of a program as blocks.
pub open spec fn flat_funcs(fs: Seq<IrFuncV>) -> Seq<FlatFuncV> {
    Seq::new(fs.len(), |i: int| flat_func(fs[i]))
}

/// The blocks of each function can be counted.
pub open spec fn can_be_counted(fs: Seq<IrFuncV>) -> bool {
    forall|i: int| 0 <= i < fs.len() ==> size((#[trigger] fs[i]).code, 0) <= usize::MAX
}

/// The text of a program, where the blocks of its functions can be counted.
pub fn assemble(m: &IrModule) -> (r: Option<String>)
    ensures
        match r {
            Some(s) => can_be_counted(m@) && s@ == module_text(flat_funcs(m@)),
            None => !can_be_counted(m@),
        },
{
    let mut flats: Vec<FlatFunc> = Vec::new();
    let mut i: usize = 0;
    while i < m.funcs.len()
        invariant
            0 <= i <= m.funcs@.len(),
            flats@.len() == i,
            forall|k: int| 0 <= k < i ==> (#[trigger] flats@[k])@ == flat_func(m@[k]),
            forall|k: int| 0 <= k < i ==> size((#[trigger] m@[k]).code, 0) <= usize::MAX,
        decreases m.funcs@.len() - i,
    {
        assert(m@[i as int] == func_view(m.funcs@[i as int]));
        match flatten(&m.funcs[i]) {
            Some(f) => {
                flats.push(f);
            },
            None => {
                return None;
            },
        }
        i += 1;
    }
    assert(flats_view(flats@) =~= flat_funcs(m@));
    Some(assembly(&flats))
}

/// The text of a program that the type checker accepts.
pub open spec fn program_text(fs: Seq<IrFuncV>) -> Seq<char> {
    module_text(flat_funcs(fs))
}

/// What is answered to a text that LLVM does not take.
pub open spec fn bad_text(text: Seq<char>) -> DiagV {
    DiagV {
        code: None,
        message: "内部エラー: 生成したLLVM IRが不正です\n"@ + text,
        span: None,
    }
}

/// What is answered to a program with more blocks than can be counted.
pub open spec fn too_large() -> DiagV {
    DiagV { code: None, message: "内部エラー: 関数が大きすぎます"@, span: None }
}

/// What to go on with: the module as LLVM writes it, or an error that shows the text.
pub fn accepted(text: &str, reading: Result<String, String>) -> (r: Result<String, Diagnostic>)
    ensures
        match (r, reading) {
            (Ok(s), Ok(t)) => s@ == t@,
            (Err(d), Err(_)) => d@ == bad_text(text@),
            _ => false,
        },
{
    match reading {
        Ok(s) => Ok(s),
        Err(_) => {
            let message = "内部エラー: 生成したLLVM IRが不正です\n".to_string().concat(
                text,
            );
            Err(Diagnostic::error(message))
        },
    }
}

/// The passes of a level of optimization.
pub open spec fn passes_text(level: u8) -> Seq<char> {
    "default<O"@ + dec_text(level as nat) + ">"@
}

proof fn lemma_digits_not_null(n: nat)
    ensures
        !dec_text(n).contains('\0'),
    decreases n,
{
    if n >= 10 {
        lemma_digits_not_null(n / 10);
        let rest = dec_text(n / 10);
        assert forall|i: int| 0 <= i < dec_text(n).len() implies dec_text(n)[i] != '\0' by {
            if i < rest.len() {
                assert(dec_text(n)[i] == rest[i]);
            }
        }
    }
}

/// The passes of a level of optimization.
pub fn passes(level: u8) -> (r: String)
    ensures
        r@ == passes_text(level),
        !r@.contains('\0'),
{
    let mut r = "default<O".to_string();
    append_dec(&mut r, level as u64);
    r.append(">");
    proof {
        lemma_digits_not_null(level as nat);
        reveal_strlit("default<O");
        reveal_strlit(">");
        let digits = dec_text(level as nat);
        assert forall|i: int| 0 <= i < r@.len() implies r@[i] != '\0' by {
            if 9 <= i < 9 + digits.len() {
                assert(r@[i] == digits[i - 9]);
            }
        }
    }
    r
}

/// A module that LLVM has taken.
pub struct CodeGen {
    name: String,
    ir: String,
}

impl CodeGen {
    /// The name of the module.
    pub closed spec fn name(&self) -> Seq<char> {
        self.name@
    }

    /// The module as LLVM writes it.
    pub closed spec fn ir(&self) -> Seq<char> {
        self.ir@
    }

    /// A module of this name with nothing in it.
    pub fn new(name: &str) -> (r: CodeGen)
        ensures
            r.name() == name@,
            r.ir() == Seq::<char>::empty(),
    {
        let r = CodeGen { name: name.to_string(), ir: String::new() };
        assert(r.ir() =~= Seq::empty());
        r
    }

    /// Compiles a program that the type checker accepts.
    pub fn compile(&mut self, program: &Program) -> (r: Result<(), Diagnostic>)
        requires
            typing::checked(program@) is Ok,
            !old(self).name().contains('\0'),
        ensures
            final(self).name() == old(self).name(),
            ({
                let funcs = lowering::lowered(program@);
                let reading = llvm_reading(old(self).name(), program_text(funcs));
                match r {
                    Ok(()) => can_be_counted(funcs) && reading == Ok::<Seq<char>, Seq<char>>(
                        final(self).ir(),
                    ),
                    Err(d) => final(self).ir() == old(self).ir() && if can_be_counted(funcs) {
                        reading is Err && d@ == bad_text(program_text(funcs))
                    } else {
                        d@ == too_large()
                    },
                }
            }),
    {
        let m = lower_program(program);
        let text = match assemble(&m) {
            Some(text) => text,
            None => {
                return Err(Diagnostic::error("内部エラー: 関数が大きすぎます".to_string()));
            },
        };
        let reading = read_module(self.name.as_str(), text.as_str());
        self.ir = accepted(text.as_str(), reading)?;
        Ok(())
    }

    /// Runs the passes of a level of optimization, for machines of a kind; level zero has none.
    pub fn optimize_for(&mut self, level: u8, triple: &str) -> (r: Result<(), String>)
        requires
            !old(self).name().contains('\0'),
            !triple@.contains('\0'),
        ensures
            final(self).name() == old(self).name(),
            level == 0 ==> r is Ok && final(self).ir() == old(self).ir(),
            level > 0 ==> match passes_give(old(self).name(), old(self).ir(), level, triple@) {
                Ok(text) => r is Ok && final(self).ir() == text,
                Err(message) => r matches Err(e) && e@ == message && final(self).ir()
                    == old(self).ir(),
            },
    {
        if level == 0 {
            return Ok(());
        }
        let names = passes(level);
        proof {
            reveal_strlit("generic");
            reveal_strlit("");
        }
        let passed = run_passes(
            self.name.as_str(),
            self.ir.as_str(),
            names.as_str(),
            triple,
            "generic",
            "",
        );
        match optimized(passed) {
            Ok(text) => {
                self.ir = text;
                Ok(())
            },
            Err(message) => Err(message),
        }
    }

    /// Runs the passes of a level of optimization, for the kind of machine that this runs on;
    /// level zero has none.
    pub fn optimize(&mut self, level: u8) -> (r: Result<(), String>)
        requires
            !old(self).name().contains('\0'),
        ensures
            final(self).name() == old(self).name(),
            level == 0 ==> r is Ok && final(self).ir() == old(self).ir(),
            level > 0 ==> exists|triple: Seq<char>|
                match #[trigger] passes_give(old(self).name(), old(self).ir(), level, triple) {
                    Ok(text) => r is Ok && final(self).ir() == text,
                    Err(message) => r matches Err(e) && e@ == message && final(self).ir()
                        == old(self).ir(),
                },
    {
        if level == 0 {
            return Ok(());
        }
        let triple = host_triple();
        let ghost given = passes_give(self.name(), self.ir(), level, triple@);
        self.optimize_for(level, triple.as_str())
    }

    /// The module as LLVM writes it.
    pub fn ir_string(&self) -> (r: String)
        ensures
            r@ == self.ir(),
    {
        self.ir.clone()
    }
}

} // verus!
