# loi

A verified library for the `loi` build tool: the registry of source files
and their versions, the language engines that turn files into IR and
symbols, the bundling and compiling services that place outputs, the
interactive command language, configuration layering, diagnostics, the
lowering of expressions to IR, and an in-memory virtual file system.

- `src/` is the library. Every function carries a contract that Verus
  proves; `src/fs/laws.rs`, `src/config.rs`, `src/command.rs`,
  `src/symbol.rs`, `src/utter.rs` and `src/lower.rs` hold the properties
  that span several operations.
- `tests/` runs the library on concrete inputs.
- `app/` is the `loi` program: argument parsing, reading sources from
  disk, writing outputs, the prompt loop and terminal drawing.

## What is not here

- Code generation through LLVM (`codegen_expr`, `codegen_ir_op` and the
  helpers around them): every step is a call into inkwell, which needs an
  LLVM installation.
- `Compiler::compile`, `CompileEngine`, `Context`, `CompileState`,
  `compile_file`, `compile_project`: they run pipelines, a lexer, a parser
  and a kernel from the `pipeline`, `frontend`, `kernel` and `watcher`
  modules, which the project's sources do not contain.
- `Engine::rename`, `Engine::exists` and `Vfs::exists`: unwritten
  (`todo!()`) in the project.
- The JavaScript minifier step that runs the external `esbuild` program.
