# brush_bridge

The parts of a shell that let scripts share variables between processes and run embedded Python,
written in Verus and proved against their contracts.

- `layout`, `journal`, `effective`: the bytes of a shared store, the records they hold, and the
  values that the records give a name. `shared_memory` reads and writes such stores.
- `variables`, `env`, `shell`: shell variables in nested scopes, and binding them to a store.
  `family` holds a shell with its subshells, which share one. `shared` is the command that binds.
- `blocks`, `tokenizer`, `parser`: rewriting `PYTHON ... END_PYTHON` blocks, and the way from a
  script to a parsed program.
- `py`, `dedent`, `python`: the options of the `py` command, what it runs, and what becomes of the
  outcome.
- `cancel`, `results`, `error`, `text`, `name_map`, `indexed`: what the others build on.

`app/` maps stores into shared memory, reads command lines and scripts, and calls the library.
