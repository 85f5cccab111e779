# hfm_filter

The verified core of a content-filtering reader and renderer, written in
Verus. Every function in `src/` carries a contract. Verus proves them all,
except those of the few `external_body` wrappers around outside functions
(`str::to_uppercase`, `str::to_lowercase`, the tokenizer and the image
resizer), whose contracts are assumed and say in their doc comments what
they claim.

- `src/` — the library: the reader pipeline (`types`, `source`, `filter`,
  `pipeline`, `buffer`), frame filtering (`mask`, `detection`, `model`),
  model input and output layout (`tokenizer`, `parser`), the renderer's and
  browser's decisions (`render`, `browser`), the frame protocol (`network`),
  the content stages (`content_buffer`, `fetcher`, `ml_processor`), the
  debug switches and frame counter (`debug_config`, `logging`), the frame
  hand-off between loader and renderer (`shared_state`) and the
  packaging rules (`packaging`).
- `tests/` — tests run against the compiled library.
- `app/` — the unverified program around it: file and process I/O, threads,
  process-wide state, and the floating-point ends of the models.
