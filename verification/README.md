# flashield-lite

A trace-driven simulator of a hybrid DRAM/flash key-value cache in which DRAM acts as
an admission filter for flash, written in Verus: the cache policies, the simulated
flash, the LRU index, the trace parser, the workload generator and the command-line
option parser are verified against their contracts.

Layout:

- `src/lru.rs` — byte-capacity LRU cache; model: entries in recency order.
- `src/flash.rs` — simulated flash: whole-segment write accounting and a logical index.
- `src/metrics.rs` — simulation counters.
- `src/policy.rs` — the `CachePolicy` trait, the DRAM-only and naive flash policies,
  `replay` and `run_to_end`, and the laws over whole runs.
- `src/flashield.rs` — the Flashield-lite admission policy.
- `src/text.rs` — character-level helpers: trimming, comma splitting, integer parsing
  and printing.
- `src/trace.rs` — trace events, the CSV line format and the trace parser.
- `src/generator.rs` — the deterministic synthetic workload generator and its presets.
- `src/cli.rs` — command and option parsing.
- `src/report.rs` — the JSON report of the counters.
- `src/simulate.rs` — building the named policy from the options and running a trace
  through it.
- `app/main.rs` — the program: file I/O, the text report and the two floating-point
  ratios, and the `flashield-ml` policy, whose admission model is floating point.
- `tests/` — tests of the library.
