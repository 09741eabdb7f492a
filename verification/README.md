# Lumo

Lumo is a small statically typed language. This project is its compiler: `src/` is the
library and `app/` the program around it. The library is verified with Verus, but for the
few functions that only call LLVM (through `inkwell`) or the standard library, whose contracts
are believed: they are marked `external_body` or `assume_specification`, in `codegen.rs`,
`text.rs` and `types.rs`.

A program goes through these stages.

| Stage | What it does | What it is held to |
| --- | --- | --- |
| `loader` | finds the files of a program | `loader::run`, `loader::load_file` |
| `lexer` | text to tokens | `lexer::lexed` |
| `parser` | tokens to a tree | `grammar::program` |
| `typeck` | refuses what has no type | `typing::checked` |
| `lower` | tree to intermediate code | `lowering::lowered` |
| `blocks` | code to blocks | `blocks::flat`; `flow` shows that both do the same |
| `assembly` | blocks to the assembly language of LLVM | `assembly::module_text` |
| `codegen` | hands the text to LLVM, through `inkwell` | `codegen::llvm_reading` |

`meaning` says what a program means: what comes of its expressions, statements and functions,
on values of which only the primitive operations are known. `faithful` shows that lowering
keeps the meaning: `faithful::program` states that a call of a function of an accepted
program comes to the same on the program, on its code and on its blocks.

`memory` says what the primitive operations are on a machine, those of `runtime` among them,
and what then becomes of arrays, structures, values of sum types, strings and maps: that
`push` appends, that an index out of bounds ends the program, that a walk through an array
takes the elements that it had at the start, that `/` rounds toward zero, that `join` undoes
`split`, that `m[k]` is what was last put there. Operations on fractions, input and output
are left open there.

`sound` shows that lowered code has types: every instruction is given operands of the types
that it takes, calls and returns agree with the functions that they are of, and every
register is written once.

`places` shows that every error can be shown: every span of a program starts and ends
between characters of the file that it was read from, and every error of the loader, the
lexer, the parser and the type checker has such a span, or none. `reading` shows that the
name of a type reads as the type, and `order` that the order of definitions does not change
whether a program is accepted.

`fractions` says how messages show a fraction. `runtime` holds what compiled programs call: strings, numbers as text, arrays and maps.
`app/runtime.rs` gives these functions the calling convention of C; built as a static
library, it is what executables are linked with.

The language itself: `int` (64 bits), `float`, `bool`, `string`, arrays `[T]`, maps
`{string: T}`, structures and sum types; functions; `if`, `while`, `for`, `for`-`in`,
`match`; modules by `import "path";`.
