# deepcopy

A directory copier that handles cloud-backed files properly: online-only placeholders are copied in
a lane of their own, transient provider errors are retried, and conflicts are asked about one at a
time.

- `src/` is the library: what is decided and computed along the way, from plain values to plain
  values. Its functions carry contracts, and the properties that span functions are stated as proof
  functions named `law_...`. Verus proves them, but for two short wrappers whose contracts it takes
  on trust: `size::human_bytes` (byte counts by `indicatif`) and `path::text_from_bytes`
  (`String::from_utf8_lossy`).
- `app/` is the program around it: arguments, files, the terminal and the async runtime. It asks the
  library what to do next, does it, and reports back.
- `tests/` runs the library on concrete values.
