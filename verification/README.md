# hyperdemo

A small demo: a loading bar falls into a neon landscape, a square rolls past a
scrolling message, and a rotating tesseract ends the show, all set to a live-coded
synthesizer track.

`src/` is the verified library (Verus):

- `tesseract` — the sixteen corners, the twenty-four square faces, their split into
  triangles and their colours; proofs that every face is a square of the tesseract in
  "Z" order, that no face repeats, that both triangles of every cube face are wound
  toward the centre of their cube and that the mesh fills the renderer's fixed buffers
  exactly.
- `schedule` — the scene timeline and the lookup of the scene that plays at a given time,
  with proofs that slots never overlap and that scenes only move forward in time.
- `audio` — the sample queue between the synthesizer's blocks and the output frames,
  with proofs that over a callback with any number of refills samples come out in order
  with none dropped, and that the queue never holds a whole unplayed block.
- `mountains` — the candidate peaks of the mountain range and their selection by
  seeded random draws.

`app/` is the program around it: window, GPU pipeline, audio stream and all drawing
in floating point. `tests/` exercises the library on concrete values.
