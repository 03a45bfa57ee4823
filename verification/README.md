# Song recommender, verified core

A terminal program that recommends songs from a catalogue file, queues
them, plays them (prints their links) and saves them as named playlists.

- `src/` is the library, verified with Verus:
  - `queue.rs`: a first-in, first-out queue (two stacks) whose contents are
    a `Seq`, with a walk over its items and the first-in, first-out laws.
  - `text.rs`: characters of a string, white-space trimming, fields
    separated by `"; "`, and unsigned 16-bit numbers in decimal, each
    against a specification of what it computes.
  - `song.rs`: a song and the catalogue line format
    `name; author; genre; year; language; url`.
  - `playlist.rs`: the playlist file format (a `{name` line, song lines, a
    `}` line), reading it, writing a playlist in it, and the proof that a
    saved playlist reads back as itself.
- `tests/` runs the library on concrete values.
- `app/` is the menu, the file input and output, and the similarity scores,
  which are floating-point.
