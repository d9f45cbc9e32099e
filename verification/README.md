# specs_ultra

A desktop system-information viewer (CPU, GPU, memory, storage, network) whose
computations live in a library verified with Verus.

- `src/` — the verified library:
  - `text`: whitespace, trimming, searching, splitting into lines, fields and
    words, integer parsing, each against a specification of the `str` behaviour.
  - `fmt`: byte sizes (`1.50 GB`), gibibytes and uptimes rendered as text; the
    fixed-point digits are those that `f64` formatting prints.
  - `clock`: reading the wall clock, uptime arithmetic.
  - `cpu`: instruction-set extensions by vendor and architecture, grid layout.
  - `gpu`: the adapter facts read from `lspci`, sysfs, `nvidia-smi`, `glxinfo`,
    `system_profiler` and `wmic` output; the capability table by vendor.
  - `sensors`: which temperature sensors serve which device, by label.
  - `net`: interface kinds, display order, addresses from `ip addr`, counters.
  - `order`: stable orderings by key (used for interfaces and processes).
  - `history`: fixed-length usage histories.
  - `storage`, `environ`: disk health verdicts and environment-variable display.
- `app/` — the egui window, the sysinfo queries, the external commands and the
  public-IP request, calling into the library.
- `tests/` — executable tests of the library, several against the `std`
  functions that the specifications describe.
