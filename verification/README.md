# raw_workbench

A small audio workbench: 16-bit audio clips, compound clips built from them
(a window into a clip, two clips joined, a clip played backwards), tracks
that arrange clips on a timeline, WAV encoding and decoding through `hound`,
and the handlers of a command-line session (`copy`, `import`).

The library in `src/` is written in Verus. Every clip stands for a sequence
of samples (`ClipRef::audio`, `Clip::clip_audio`), and the contracts say what
each operation does to those sequences: a subclip is a subrange, a
concatenation is the joined sequences, inserting into a track splits the
timeline at the insertion point, reading back a written WAV gives the clip.

- `src/outline.rs`: `Sample`, the `Time`, `Clip`, `Filter`, `AudioReader` and
  `AudioWriter` traits, and `ClipRef`, the shared handle to any clip.
- `src/samplearray.rs`: clips held in a vector.
- `src/compounds.rs`: `Subclip`, `Concat`, `Reverse`.
- `src/track.rs`: `Track` and the channel clips it produces.
- `src/wavreader.rs`: WAV bytes in and out, and dealing interleaved samples
  out to channels.
- `src/tempo.rs`: time signatures.
- `src/text.rs`: words, decimal numerals and character helpers.
- `src/rawcli.rs`: the command-line session's state and command handlers.

`app/` holds the program around it: the command loop on standard input and
output, file reading, and what needs floating point (seconds, tempo,
interpolation).
