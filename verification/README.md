# fcb

A verified library for browsing, searching and reading source code.

- `src/search`: exact reading of captured sources, streaming search, snapshots,
  their trigram index with its stored forms, comparisons, trails, workspaces.
- `src/ui`: the interface as a state machine: focus, gestures, the tree, the
  sidebar, reading panes and the desk that keeps what they show.
- `src/envelope.rs`, `src/identity.rs`, `src/capture.rs`, `src/scalar.rs`: sealed
  documents, numbered identities, captured bytes, single-precision coordinates
  by their bit patterns.
- `app`: the ordinary Rust around it: files, writers, error texts and
  floating-point sums.

The library reads no file and asks for no memory by itself. What only the host
can do (hashing, decoding, matching, reserving memory, reading) is handed in as
a closure, and every contract says what is asked of it and what is made of the
answer. Laws that relate several functions stand beside them as public proof
functions.
