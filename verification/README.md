# ace

A node graph editor that computes with scalars, 2d vectors and texts, with sound,
transcripts and a language model beside it.

- `src/` is the verified library: which nodes there are and how they are built,
  what evaluating a node means and how it is done, what the editor does with the
  user's input, transcripts, recordings, requests, and how responses are shown.
- `app/` is the program around it: windows and how they look, devices, the
  network, the database, and the floating point arithmetic itself.
- `tests/` runs the library.

The evaluation does not compute numbers. It records the operations as a
straight-line program, which `app/` runs in floating point; `src/laws.rs` proves
that running it gives the value of the node in any number format.
