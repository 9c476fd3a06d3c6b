# hyperfold

The code generator of an entity-component-system game engine, with its
logic proved by Verus.

A game crate marks its structs and functions as components, globals, events
and systems. The generator reads the game crate and every crate it depends
on, resolves the marked items' paths across crates, checks each system's
arguments, writes what it found into a data file of `;`- and `,`-separated
entries, reads that file back, and generates the code that stores the
components and runs the systems.

## Layout

- `src/` is the verified library: path resolution (`ast_resolve`, `ast_use`,
  `ast_pathing`, and `resolve_check`, which tells whether resolution ends
  within a depth), the marked items of a crate (`items_parse`, `ast_attrs`,
  `mod_visit`, `source_read`, `source_build`, `crate_scan`), the checks and the
  data file (`system_data`, `ast_validate`, `decoder`, `data_grammar`), the
  generated code (`codegen`, `codegen_system`, `system_code`, `entry_code`,
  `codegen_mods`),
  the dependency order (`dependency`), and the engine's input state (`event`,
  `assets`). The parsers of `syn`, `toml`, `parse_cfg` and `regex` are called
  from the library behind trusted wrappers whose contracts name what they
  return; the library's own logic runs on their results.
  Laws that span functions are public proof functions beside them.
- `tests/` runs the library on concrete values.
- `app/` is the program: it reads the crates' source files and manifests and
  hands their text to the library, writes and reads the data file, writes the
  frame loop of the generated runner (SDL's clock and a floating-point
  average), prints the generated code, and holds the floating-point rectangles
  of the engine.
