# Agent Viewer

Agent Viewer plays Microsoft Agent and Microsoft Actor characters: it opens a
character file, plays its animations and sounds, and lets the character speak.

- `src/` is the core as a Verus library. It reads character files, plays
  metafiles into drawing operations, composites frames, runs playback, times
  speech and lip sync, and takes the decisions behind the window. Every function
  states what it does in its contract, and the contracts are proved.
- `tests/` runs the library on concrete files and inputs.
- `app/` is the viewer around it, with GTK 4 and libadwaita: windows, files,
  processes, sound output, and the floating-point rasterizer. Run under the name
  `acsdump` it describes a character file and writes frames as PNG.

A few short functions hand work to code that is not proved here, among them the
`cfb` crate for compound files, the system clock and Unicode case folding. Each
says in its documentation what is taken on trust.
