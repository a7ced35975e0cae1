# vibelang

The front end of the Vibelang compiler and the bookkeeping of its runtime, written
in Verus, with contracts that Verus proves (see below for how much of the syntax tree
the parser's contracts fix).

- `src/lexer.rs`: the tokenizer. A successful run yields a lexing of the whole
  source (tokens, their exact spans, whitespace between them); a failed one names
  the place where no token can start. A source has at most one lexing, and none
  where the lexer fails.
- `src/parser.rs`, `src/ast.rs`: the recursive-descent parser and the syntax tree.
  Where the token grammar reads an input, the contracts fix where parsing ends, whether
  it fails, and the shape of what it builds: each top-level item's kind; a function's
  name, parameters, return type and body statements; statements (`return`, `let`,
  `const`, `if`, `while`, blocks, `break`, `continue`, assignments) with their
  patterns, types and expressions; expressions down to literals, names, calls, method calls and
  invocations with their argument names and values, field and tuple-field accesses,
  indexing, tuple and array literals, and operators with their operands; and the messages of some
  errors. Spans are fixed for literals, names, operators, member accesses, indexing,
  patterns, `break` and `continue`; struct literals, `match`
  and lambdas are only known as "other" expressions.
- `src/module_loader.rs`: module data, the exports a program actually imports
  (exactly those reached from the entry module), and the linked program.
- `src/monomorphize.rs`: instantiation of generic functions for the type
  arguments they are called with.
- `src/builtins/`: the registry of built-in declarations and their signature checks.
- `src/bytecode.rs`, `src/bytecode_gen.rs`: the instruction set and the code
  generator's slots, scopes, labels, jump patching and pattern stores.
- `src/async_runtime.rs`: the task scheduler (ready queue, timers, waiters).
- `src/error.rs`, `src/text.rs`, `src/table.rs`: diagnostics and shared helpers.

The code generator covers what the compilation of expressions and statements builds
on: slots, scopes, labels and jump patching, pattern stores, call argument resolution.
The compilation of whole expressions, statements and programs is not in this crate:
its method dispatch needs the type keys of values, and its output is run by the VM,
and neither the type keys, the runtime values, the checker nor the VM is part of it.

`app/main.rs` is the command-line driver: it reads files, resolves import paths on
disk and prints diagnostics.
