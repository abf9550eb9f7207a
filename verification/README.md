# veldspar

The verified core of a voxel game: chunk coordinates and chunk storage, region files with
their compressed, versioned payloads and the migrations between versions, the server's world
bookkeeping, console commands (whose numbers are checked as text against the float syntax and
rounding of `f32`), player sessions and chunk streaming, and the integer parts of the client:
its copy of the world, how the mesher reads blocks across chunk borders and merges visible
faces into quads, the particle system's random numbers, texture atlas slots, and the texts
and layouts of its menus.

Verus checks every function in `src/`, and each carries a contract that Verus proves. For
the thread plumbing of `events` and `jobs` those contracts say what can be said without
modelling other threads: both ends of a channel belong to it, a failed send hands the event
back, a pool asked for some threads has that many, and a scope returns its closure's result.
Calls into `zstd`, `lz4_flex`, `bincode`, `rayon` and `std::sync::mpsc` sit behind small
trusted wrappers whose contracts say what those crates document.

Layout:

- `src/` — the library, verified by Verus.
- `tests/` — tests that run the library with the real outside crates.
- `app/` — the server program: argument handling, the network loop over `renet`, file I/O for
  region files, and the game loop that hands events to the library and performs the actions
  it returns.
