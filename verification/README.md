# Meerkat

A node of the Meerkat language: reactive services that run on several machines and can be updated
while they run.

`src/` is the library, verified with Verus:

- `runtime/parser` reads source text, `runtime/ast` holds what was read.
- `runtime/nameres` and `runtime/tt` check names, types and the order of declarations.
- `runtime/graphs` finds what depends on what; the graph algorithms are those of `petgraph`.
- `runtime/interpreter` evaluates expressions; `runtime/lookup` does so at a running node, and names
  what has to be read from other nodes.
- `runtime/imports`, `runtime/import_order`, `runtime/import_requests` and `runtime/fetch` bring in the
  services that a program imports.
- `runtime/node`, `runtime/manager`, `runtime/txn`, `runtime/wait_die` and `runtime/startup` hold a
  running node and its locks.
- `runtime/update` changes the services of a running node, writes updates out as source and reads
  them again.
- `runtime/web` is what a page in a browser shows and does.
- `net` is what nodes say to each other.

`app/` is the program around the library: files, network, command line, browser.
