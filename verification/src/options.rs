//! What the compiler is asked to do.
use crate::text::text_eq;
use vstd::prelude::*;

verus! {

/// What the arguments ask for so far.
pub ghost struct OptionsV {
    pub cmd: Option<Seq<char>>,
    pub path: Option<Seq<char>>,
    pub opt: u8,
}

/// The level that an argument asks for, if it is one of those that do.
pub open spec fn level_named(arg: Seq<char>) -> Option<u8> {
    if arg == "-O0"@ {
        Some(0)
    } else if arg == "-O1"@ {
        Some(1)
    } else if arg == "-O2"@ {
        Some(2)
    } else if arg == "-O3"@ {
        Some(3)
    } else {
        None
    }
}

/// What one more argument asks for: a level, else the command, else the file. There is
/// nothing that a third argument of another kind could ask for.
pub open spec fn with_arg(o: OptionsV, arg: Seq<char>) -> Option<OptionsV> {
    match level_named(arg) {
        Some(opt) => Some(OptionsV { opt, ..o }),
        None => if o.cmd is None {
            Some(OptionsV { cmd: Some(arg), ..o })
        } else if o.path is None {
            Some(OptionsV { path: Some(arg), ..o })
        } else {
            None
        },
    }
}

/// What the arguments ask for.
pub open spec fn with_args(args: Seq<Seq<char>>) -> Option<OptionsV>
    decreases args.len(),
{
    if args.len() == 0 {
        Some(OptionsV { cmd: None, path: None, opt: 0 })
    } else {
        match with_args(args.drop_last()) {
            Some(o) => with_arg(o, args.last()),
            None => None,
        }
    }
}

/// What the arguments ask for. They are to name a command and a file.
pub open spec fn options_of(args: Seq<Seq<char>>) -> Option<(Seq<char>, Seq<char>, u8)> {
    match with_args(args) {
        Some(OptionsV { cmd: Some(cmd), path: Some(path), opt }) => Some((cmd, path, opt)),
        _ => None,
    }
}

/// A command, the file it is for, and the level of optimization.
#[derive(Debug)]
pub struct Options {
    pub cmd: String,
    pub path: String,
    pub opt: u8,
}

impl View for Options {
    type V = (Seq<char>, Seq<char>, u8);

    open spec fn view(&self) -> (Seq<char>, Seq<char>, u8) {
        (self.cmd@, self.path@, self.opt)
    }
}

pub open spec fn args_view(args: Seq<String>) -> Seq<Seq<char>> {
    Seq::new(args.len(), |i: int| args[i]@)
}

fn level_of(arg: &str) -> (r: Option<u8>)
    ensures
        r == level_named(arg@),
{
    if text_eq(arg, "-O0") {
        Some(0)
    } else if text_eq(arg, "-O1") {
        Some(1)
    } else if text_eq(arg, "-O2") {
        Some(2)
    } else if text_eq(arg, "-O3") {
        Some(3)
    } else {
        None
    }
}

proof fn lemma_refused(args: Seq<Seq<char>>, n: int)
    requires
        0 <= n <= args.len(),
        with_args(args.take(n)) is None,
    ensures
        with_args(args) is None,
    decreases args.len() - n,
{
    if n < args.len() {
        assert(args.take(n + 1).drop_last() =~= args.take(n));
        lemma_refused(args, n + 1);
    } else {
        assert(args.take(n) =~= args);
    }
}

/// What the arguments ask for, without the name of the program.
pub fn parse_args(args: &Vec<String>) -> (r: Option<Options>)
    ensures
        match r {
            Some(o) => options_of(args_view(args@)) == Some(o@),
            None => options_of(args_view(args@)) is None,
        },
{
    let ghost all = args_view(args@);
    let mut cmd: Option<String> = None;
    let mut path: Option<String> = None;
    let mut opt: u8 = 0;
    let mut i: usize = 0;
    assert(all.take(0) =~= Seq::empty());
    while i < args.len()
        invariant
            0 <= i <= args@.len(),
            all == args_view(args@),
            with_args(all.take(i as int)) == Some(
                OptionsV {
                    cmd: match cmd {
                        Some(c) => Some(c@),
                        None => None,
                    },
                    path: match path {
                        Some(p) => Some(p@),
                        None => None,
                    },
                    opt,
                },
            ),
        decreases args@.len() - i,
    {
        let arg = &args[i];
        proof {
            assert(all.take(i + 1).drop_last() =~= all.take(i as int));
            assert(all.take(i + 1).last() == arg@);
        }
        match level_of(arg.as_str()) {
            Some(level) => {
                opt = level;
            },
            None => {
                if cmd.is_none() {
                    cmd = Some(arg.clone());
                } else if path.is_none() {
                    path = Some(arg.clone());
                } else {
                    proof {
                        lemma_refused(all, i + 1);
                    }
                    return None;
                }
            },
        }
        i += 1;
    }
    assert(all.take(i as int) =~= all);
    match (cmd, path) {
        (Some(cmd), Some(path)) => Some(Options { cmd, path, opt }),
        _ => None,
    }
}

/// What is done with a compiled program.
#[derive(Debug, Clone, Copy, PartialEq, Eq, Structural)]
pub enum Action {
    Run,
    Build,
    EmitIr,
}

/// The action of this name.
pub open spec fn action_named(cmd: Seq<char>) -> Option<Action> {
    if cmd == "emit-ir"@ {
        Some(Action::EmitIr)
    } else if cmd == "run"@ {
        Some(Action::Run)
    } else if cmd == "build"@ {
        Some(Action::Build)
    } else {
        None
    }
}

/// The action of this name.
pub fn action_of(cmd: &str) -> (r: Option<Action>)
    ensures
        r == action_named(cmd@),
{
    if text_eq(cmd, "emit-ir") {
        Some(Action::EmitIr)
    } else if text_eq(cmd, "run") {
        Some(Action::Run)
    } else if text_eq(cmd, "build") {
        Some(Action::Build)
    } else {
        None
    }
}

// Laws.

/// A level can stand anywhere: it changes neither the command nor the file.
pub proof fn levels_name_no_file(args: Seq<Seq<char>>, arg: Seq<char>)
    requires
        level_named(arg) is Some,
        options_of(args) is Some,
    ensures
        ({
            let (cmd, path, _) = options_of(args).unwrap();
            options_of(args.push(arg)) == Some((cmd, path, level_named(arg).unwrap()))
        }),
{
    assert(args.push(arg).drop_last() =~= args);
}

} // verus!
