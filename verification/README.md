# lox

A front end for the Lox language with contracts proved by Verus.

- `src/lexer`, `src/parser.rs`: the scanner and the recursive-descent parser of
  the tree-walk interpreter, each proved equal to a functional specification
  (`tokens_of`, `parse_program`), errors and reports included.
- `src/ast`: the syntax tree, its prefix printer and its Graphviz drawing.
- `src/resolver`: static resolution of local variables.
- `src/evaluator`: runtime errors, scopes of variables (generic in the value
  type) and the native `clock`.
- `src/bvm`: the bytecode side: the scanner (with the line-counting law),
  opcodes, chunks, disassembly decoding, the parse-rule table, and the
  single-pass compiler. `codegen.rs` states what compiling does as functions
  on the compiler's state (`compiled(source, reports)`); every routine of
  `emit.rs` is proved to compute its function there, and `Parser::compile`
  returns the script that `compiled` gives, with exactly its reports.
- `app/main.rs`: the command line (files, prompt, printing; `-b`, `-s`, `-d`,
  `-t` for the bytecode side).
- `app/vm.rs`: the virtual machine that runs compiled bytecode; it stays
  outside the library because its values are floating-point numbers.
