# corten_devtools

The state and rules behind a set of Chrome DevTools Protocol domains,
written in Verus: each operation states in its contract what it returns and
how it changes the domain's state, and Verus proves the code against it.

## Layout

- `src/` — the verified library.
  - `text`, `str_map`, `id_map`, `clock`, `protocol`: strings, maps keyed by
    text or node id, wall-clock readings, and protocol errors.
  - `source_map`: Base64 VLQ decoding, the mappings grammar, and position
    lookups in both directions.
  - `network`: tracked requests with capped bodies, interception patterns,
    Cache Storage pages and WebSocket frames.
  - `js_debug`: scripts, breakpoints, stepping and pause state, the mock
    evaluator, and the debugger's events.
  - `cpu_profiler`, `memory_profiler`, `profiler_domain`, `heap_profiler`,
    `timeline`, `profiler_types`: the profilers and their domains.
  - `dom`, `mock_browser`: the simulated page, its queries, attribute edits,
    searches and mutation log.
  - `dom_inspector`, `elements`, `layout`, `render`, `accessibility`,
    `storage`: the inspector panels built on the simulated page.
- `tests/` — tests of the library, run against the compiled crate.
- `app/` — the protocol surface: JSON parameters and replies, method
  dispatch, serde copies of library types, and the floating-point time
  columns of the profiles.

Laws that relate several operations (a written attribute reads back, a
stored body reads back within its cap, profile hits add up to the samples,
and others) are public proof functions next to the operations they speak of.
