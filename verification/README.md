# aether

The logic of the Æther agent as a verified library: the layered filesystem
(writable layer over add-in layers over a base template), the overlay of a
single directory with lazy files, the FUSE path index, materialization
plans, the add-in registry and its ids, the agent context, the shim-loader's
outputs, Shimmer's file I/O scoring and the probe's staging files.

- `src/` is verified with Verus. Host I/O is not done there: where a
  decision depends on what the host filesystem holds, the caller looks it up
  and hands the answer in, and the function states the result for every
  answer.
- `app/` holds that I/O: the shim-loader hook (`main`), manifest parsing,
  writing the context file, the host layers, the overlay mount, network
  setup and the supervisor.
- `tests/` exercises the library.
