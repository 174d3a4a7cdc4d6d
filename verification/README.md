# once

`once` keeps the settings files of programs under one root directory and links
each of them back to the place where its program expects it.

- `src/` is the verified library (Verus):
  - `text.rs`: padding, centering and decimal notation, as `format!` writes them;
  - `link.rs`: the state of a program's links, its counts, and the table that shows it;
  - `table.rs`: the general table layout (column widths by display width, cutting of
    long cells, borders);
  - `paths.rs`: Unix path components and joining, environment lookups, `~` and
    `$VAR` expansion (through `shellexpand`), and home/variable substitution;
  - `store.rs`: where the tool keeps its configuration, registry and program records;
  - `local.rs`: what setting the tool up writes.
- `app/` is the command line tool: argument parsing, the environment, the file
  system and the TOML files.
- `tests/` runs the library on concrete inputs.
