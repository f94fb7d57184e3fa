# git-ents

Helpful guardians of your git trees: a git forge whose metadata lives in the
repository itself, on `refs/meta/*`, and a command line for it.

- `src/` is the library: what is decided, parsed and shown. Every item is
  verified by Verus against the contract it states. A few small functions call
  outside crates; each says what is believed of the call.
- `tests/` runs the library.
- `app/` is the program around it: HTTP, processes, files, the terminal, and the
  HTML of each page.

What the meta refs hold is laid out by `src/documents.rs`: each value a git tree
or blob, and whatever is stored reads back as it was. `src/process.rs` carries a
job out step by step, `src/schedule.rs` puts its checks in order.

Text is modelled as a sequence of characters, a table keyed by text as a map, and
the result of an outside call that takes pages to describe by a name. Functions
called `law_…` state what holds of several functions together.
