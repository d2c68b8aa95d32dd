# lumen

Sets the RGB lighting of supported keyboards and mice (a Razer Cynosa Lite and
a HyperX Pulsefire Core) over HID feature reports.

- `src/` is the verified library: colours and their parsing, the device
  registry, the Razer and HyperX protocol drivers that turn a command into exact
  report bytes, HID report-descriptor parsing, the choice of control interface,
  the grouping `lumen probe` shows, the decisions of the command line and the
  menu, the lines they print, and the usage-log line with its UTC timestamp.
  Every function carries a contract that Verus proves, and the properties that
  span functions are stated as proof functions (`lemma_*`).
- `app/` is the `lumen` program around it: argument parsing, hidapi, the macOS
  Input Monitoring query, the terminal, the usage-log file and the `--hold`
  loop. It also holds a reader for registry entries written as TOML
  `[[device]]` blocks (`app/registry.rs`); the program itself starts from the
  registry built into the library, `Registry::builtin`.
- `tests/` runs the library on concrete values.
