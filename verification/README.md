# arithmetics

A comparison of Rust's numeric representations — native floats, `rust_decimal`,
`bigdecimal`, binary fixed-point and half-precision floats — for speed, memory
and exactness, with the logic around the comparison verified in Verus.

## Layout

- `src/` — the verified library:
  - `lib.rs`: the seeded generator (`Lcg`) and the deterministic decimal input
    strings (`decimal_strings`), with parsing of those strings (`parse_all`);
  - `decimal.rs`, `big_decimal.rs`: `rust_decimal` and `bigdecimal` values held as
    plain parts, every operation carried out by the crate itself;
  - `validation.rs`, `error_analysis.rs`, `platform.rs`: the decimal checks and the
    records of platform checks;
  - `profiler.rs`, `clock.rs`: timing statistics, allocation counters, memory
    snapshots and the cache-line model of access patterns;
  - `config.rs`, `cli.rs`: the configuration, its checks and the command-line
    overrides;
  - `export.rs`, `visualization.rs`: library profiles, run summaries and the
    classification of benchmark names;
  - `assoc.rs`, `text.rs`, `precision/`: name-keyed lists, text helpers and array
    footprints.
- `app/` — the program: command line, files, printing, and every computation on
  `f64`/`f32`/`f16` values, which the library does not hold.
- `tests/` — tests of the library and of the floating-point findings.

Contracts state what each function returns over mathematical models (`Seq`,
`Map`, integers); where a result comes from `rust_decimal` or `bigdecimal`, the
contract speaks of it through a named result of that crate's function.
