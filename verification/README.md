# vmm

The core of a microVM monitor, verified with Verus.

- `src/` is the library. It tracks dirty guest memory, makes checkpoint deltas against a golden
  image, coordinates the vCPU threads, maps device outcomes to errors and routes requests below
  `/memory`. It does no I/O.
- `app/` drives the library: it reads the page map, maps the golden image, talks to vCPU threads
  and devices, and listens for events.
- `tests/` runs the library on concrete values.

Hashing (XXH3) and compression (LZ4 frames) are calls into crates; `src/outside.rs` holds them and
says what is relied on.
