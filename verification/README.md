# culebra

Compiler diagnostics for self-hosting languages that target LLVM, as a
library whose logic is proved with Verus, and a command-line program around
it.

## Layout

- `src/` — the verified library. Every public function states what it
  returns in `ensures`, over spec functions and views:
  - reading: `ir` (LLVM IR: functions, metrics, struct types, string
    constants, pathology detectors), `c_parser` (C sources), `cfg` (basic
    blocks), `layout` (struct layouts and crash offsets), `binary` (ELF/PE
    through `goblin`);
  - the template engine: `schema`, `loader`, `engine`, `report`, `baseline`,
    `triage`, `workflow` (workflow steps, drain entries, stop and clear
    decisions, autofix write-back);
  - the project file: `project` (the tests, stages and project keys of
    `culebra.toml`; test selection, outcomes and counts; stage commands and
    outcomes; the status rows; fixed-point steps), `journal`;
  - the commands' computations: `diagnose`, `fix`, `eval`, `probe`, `trace`,
    `health`, `index_audit`, `missing_types`, `summary`, `learn`, `stages`
    (diff, bisect, fixed-point deltas), `abi`, `pretty`, `dump`,
    `fingerprint`, `metrics`, `callgraph`, `session`;
  - helpers: `text`, `rx` (regular expressions through `regex`), `order`
    (sorted sets, stable most-frequent-first orders, grouping);
  - `laws` — properties that relate several functions (sorted permutations,
    escapes that count back to their length, constants of generated code
    that declare their byte counts, diffs of a build with itself, findings
    that carry their template, triage order, severity names that read back,
    the shape of parsed modules, baseline diffs as differences of fingerprint
    sets, the stable order of detector reports, and more).
- `app/` — the program: argument parsing, files, processes, colours, JSON,
  YAML and TOML, and the few computations on floating-point numbers.
- `tests/` — tests of the library on concrete inputs.

## On the byte count of `c"..."` constants

`count_actual_bytes` counts every byte that a constant's content denotes, the
`\00` terminator included. A constant's actual size, which `strings` checks
the declaration against, is what its content holds before that terminator:
`[14 x i8] c"Hello, world!\00"` is reported as 13 bytes of content, with the
fix `[13 x i8]`. The constants that the library itself writes (probe
declarations, the constants of generated wrappers) declare the full count, as
LLVM requires of the modules it assembles.
