# dockfoxbuild

A [Buildah](https://buildah.io/)-based image build driver that only breaks layers at
explicit cache boundaries, with its decisions verified by
[Verus](https://github.com/verus-lang/verus).

- `src/` is the library. It reads Dockerfiles, substitutes variables, groups instructions
  into chunks, hashes them, decides what is executed and what the cache provides, and
  decides which images are pruned. Every function states what it computes, and the
  contracts are proved. Calls into other crates stand in `src/external.rs`, each with what
  the proofs rely on.
- `app/` is the program around it: arguments, files, the SQLite database, threads, and the
  `buildah` processes.
- `tests/` runs the library on concrete values.

A chunk is executed by a state machine (`src/chunk.rs`): each turn takes what came of the
last action and gives the next one. What holds of every run is stated in
`src/chunk_laws.rs`, `src/step_laws.rs` and beside the functions concerned, as proof
functions whose names start with `law_`.
