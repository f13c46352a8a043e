# nexus-gen

A code generator for declarative IPC topology: a network of processes is
described once in `network.toml` (nodes, the contracts they send and
receive) with message schemas in `.nxs` files; the description is resolved
into a network graph, validated, and turned into C headers and
implementations, TypeScript clients and Nix derivations.

The library in `src/` is written in Verus and proved against its contracts:

- `schema` — the `.nxs` schema language (grammar in the module
  documentation) and its parser;
- `config`, `network` — the description as plain values and its resolution
  into a `Network` (`types`), with laws on matched send/receive pairs,
  shared schema files and name lookup;
- `rules` — the validation rules and `validate`, with the law that
  `validate` accepts exactly the networks that every rule accepts;
- `codegen`, `nix`, `template` — the generated files, rendered through
  MiniJinja;
- `document`, `studio` — the editor's view of a network and its conversion
  from and to `network.toml` text (parsed by the `toml` crate);
- `text` — character-level helpers (case mapping, ordering, sorting).

`app/` holds the command line (`validate`, `build`, `diff`, `studio`), file
and network I/O, and the serde and thiserror forms of the library's types.
`tests/` exercises the library on concrete values.
