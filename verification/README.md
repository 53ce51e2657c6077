# wgx

Helpers around `wgpu`, with the logic that can be stated as plain values
verified by Verus.

## Layout

- `src/` — the verified library:
  - `text_input` — a single-line text editor state whose cursor always stands on
    a char boundary; `utf8_len` holds the UTF-8 lengths it reasons with.
  - `time`, `frames`, `ticks` — durations and instants in nanoseconds, frame and
    tick timers that decide from the instant they are handed, and counters that
    tally a counting period.
  - `byte_slice` — the alignment and length checks that decide whether a byte
    slice may be viewed as a slice of another type, and their messages.
  - `buffer_helper`, `vec_buffer`, `vertex_buffer` — range conversions, bounds
    resolved within a range, copy-extend of vectors, indirect draw arguments
    from and to ranges, and CPU-side buffers of vertices.
  - `wgsl_path`, `wgsl_include`, `wgsl_modules` — WGSL modules with
    `#include "path"` (or `&include "path";`) directives: paths as components,
    directives found in the source bytes, and modules resolved against a cache
    and a set of sources, with their code spliced and their dependencies
    collected; `path_map` holds the hash map and set they use.
  - `naga_front` — parsing and validating module code with `naga`.
  - `error`, `option_result_helper`, `control_flow`, `refs` — small helpers.
- `tests/` — tests of the library.
- `app/` — what stays outside the verified core: the clock, reading shader files
  for the module resolver, raw byte views, `f32` colors, shared handles and
  `wgpu` glue.
