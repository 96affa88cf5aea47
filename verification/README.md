# lib

Utilities of a small Lisp-like interpreter, verified with Verus.

The interpreter keeps its program as a stack of shared statements
(`Arc<Sourcedata>`); each value carries an optional source position and a core
(`Coredata`): booleans, integers, strings, symbols, cells, errors, functions,
macros, tables and commands that the interpreter places on the stack for itself.

Modules under `src/`:

- `data`: the value model, `rc`/`rcs`, and `data_name`.
- `env`: the store of variable bindings, argument lists, and `Deparize`, the
  list of parameters that leave the store when a call ends.
- `lists`: building lists from programs and reading them back
  (`program_to_cells`, `collect_cell_into_revvec`,
  `collect_cell_of_symbols_into_vec`, `head`, `tail`, `len`, `internal_trace`).
- `equality`: value equality, with the proof that it is an equivalence.
- `text` and `render`: the printed form of values (`Sourcedata::to_string`),
  decimal numbers and string literals with their run-length escapes, with the
  proof that string literals can be read back unambiguously.
- `readback`: the proof that the printed form decides values made of
  booleans, integers, strings, null, errors and proper lists.
- `debug`: the texts a programmer inspecting a function or a macro sees
  (`Function::debug_text`, `Macro::debug_text`): names in Debug form, a
  function's statements in Debug form, a macro's in their printed form.
- `messages`: positions and error messages.
- `sets`: lists of names used as sets.
- `stack`: `unwind`, `err`, `pop_parameters`, `optimize_tail_call` and
  `find_earliest_depar`.
- `parse_state`: the reader's starting state.

Every public function states its result in `ensures` over spec functions of
the same module; the tests under `tests/` run the same functions on concrete
values.
