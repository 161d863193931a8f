# compact_mcp

An MCP server for the Compact toolchain: diagnostics, symbols and statistics without the
compiler, and compiling, formatting and inspecting build output with it.

- `src/` is the library, verified by Verus. It holds the decisions: how deep a source may nest
  before it is parsed, which paths lie inside the workspace, which imports a compile may follow,
  how the compiler's output reads, when a task may change, who may run the compiler, and what a
  tool answers. What needs the file system or a child process is written as steps: a step says
  what it wants to know, takes the answer, and gives the next step.
- `app/` is the program around it: it takes the steps, runs the processes, and speaks the
  protocol over standard input and output or HTTP.
- `tests/` runs the library, with a file system kept in memory where it asks for one.

A function whose body Verus does not read names the function of another crate that it calls, and
says in its doc comment what is taken on trust.
