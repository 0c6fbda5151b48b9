# hecate_lampad_shared

Policy primitives and the IPC wire protocol that Hecate lampad agents, helpers
and the control plane share. The library is written in Verus: the functions in
`src/` carry contracts that are proved. The calls into other crates and into parts
of std go through a few wrappers and declarations whose contracts, where they have
one, are believed; their doc comments say what of.

- `src/policy/`: which argument vectors may run, plain (`shell.rs`) or elevated;
  in which directories (`path.rs`); with which environment variables (`env.rs`).
  `laws.rs` and `path_laws.rs` prove what holds of the rules as a whole.
- `src/ipc/`: frames and their reader (`frame.rs`), tokens and request ids
  (`token.rs`), the token file's place (`token_path.rs`, `token_path_laws.rs`) and
  the order of work in writing it (`token_file.rs`), errors (`error.rs`), platforms
  (`platform.rs`).
- `src/text.rs`, `src/text_facts.rs`: text as sequences of characters.
- `app/`: the same API on the file system, sockets and serde.
- `tests/`: tests of the library.
