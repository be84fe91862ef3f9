# framework_service

The logic of a background service for Framework laptops and desktops, verified
with Verus: it reads what the `framework_tool` command prints, decides which
power profile and battery settings apply, and decides what to write to the
Linux power management interfaces (cpufreq, AMD P-State, RAPL powercap).

## Layout

- `src/` — the verified library.
  - `text.rs`: string primitives (`trim`, `lines`, `split_whitespace`,
    number parsing) specified on `Seq<char>`.
  - `parser.rs`: readers of `framework_tool --power -vv`, `--thermal`,
    `--charge-limit` and `--versions`, each specified as a fold over the
    lines of the output.
  - `temp_map.rs`: temperatures by sensor name, kept sorted by name and
    viewed as a `Map`.
  - `cli.rs`: the arguments given to `framework_tool`, the outcome of a run,
    and the order in which it is looked for and installed.
  - `battery_task.rs`: when the charge limit and charge rate are sent.
  - `power_task.rs`: which power profile applies, and which of its settings
    are enforced.
  - `linux_power.rs`, `cpu_paths.rs`: capabilities, frequency limits, RAPL
    energy deltas, sysfs values and the order of the CPU directories.
  - `types.rs`: configuration and API types, with their defaults.
- `tests/` — tests of the library on concrete values.
- `app/` — the service around it: running `framework_tool`, sysfs I/O, the
  battery task loop, the choice of the power profile, and the serialisable
  API types.
