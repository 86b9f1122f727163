# cc_rs

Parts of a small C compiler for x86-64, written in Verus: each function
states what it computes in its contract, and Verus proves it.

What is here: the tokenizer, C types, syntax-tree building and typing
helpers, constant folding, the macro table with macro definitions and
arguments, the conditional and macro directives, string-literal joining,
the stack and register layout of functions, pieces of the code
generator, and a hash table.

What is not here: the C parser (declarations, statements, expressions and
initializers), the expression and statement code generator and the driver
that emits a whole program, macro expansion and `#include`/`#if`. The
driver in `app/` therefore stops after tokenizing, with `-E` printing the
tokens as read.

## Layout

- `src/` — the verified library
  - `text.rs` — decimal numbers and character sequences
  - `types.rs` — C types and their constructors
  - `tokenize.rs` — source files, the tokenizer, diagnostics
  - `preprocess.rs`, `macro_args.rs` — the macro table, directives that
    skip code, macro definitions and arguments, stringizing and pasting,
    predefined macros, printing of preprocessed tokens
  - `directives.rs` — `#ifdef`, `#ifndef`, `#else` and `#endif`, with the
    stack of open conditional groups
  - `literals.rs` — joining adjacent string literals
  - `parse.rs` — syntax trees, scopes, typing of expressions, constant
    folding, local variables for parameters
  - `specifiers.rs` — combinations of basic type specifiers
  - `labels.rs` — resolving `goto` statements to their labels
  - `codegen.rs` — loads, stores, casts, stack frame layout
  - `binop.rs` — the instructions of binary operators
  - `structs.rs` — passing structs in registers, classifying call
    arguments, placing and saving parameters
  - `data.rs` — the data of global variables, function entry
  - `gvar.rs` — writing values into initializer buffers
  - `hashmap.rs` — an open-addressing hash table keyed by byte strings
- `tests/` — tests of the library
- `app/` — the compiler driver: arguments, files, the clock, subprocesses,
  output, and the conversion of floating-point numbers
