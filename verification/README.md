# confkit

Creating and loading TOML configuration files with minimal boilerplate.

- `src/` is the verified library:
  - `error_handling`: the string based `ConfigError`;
  - `config_file::config_generation`: parsing a TOML document, attaching inline
    comments to its keys (nested to any depth) and rendering it, over a model of
    the document that `toml_edit` keeps (values' text, key order, tables, and
    decoration suffixes); comments change nothing but suffixes;
  - `config_file::config_locating`: what a configuration path lacks;
  - `config_file`: the decisions of `init` and `load`, as steps from what the
    file system reported to what to do next;
  - `derive_attrs`: the decisions of the `Config` derive: its attributes, their
    errors, and where the configuration file lives;
  - `derive_input`: reading the derive's token input with `syn` into the plain
    values that `derive_attrs` decides on.
- `app/` performs the file system work, reads the XDG environment, runs serde,
  and turns the derive's plan into code.
- `tests/` runs the library.
