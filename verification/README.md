# Orchestre

The model behind a desktop music player, verified with Verus.

- `src/audio.rs`, `src/commands.rs`: the player's queues, its order of play, and
  the loop that serves its commands.
- `src/shuffle.rs`: the balanced shuffle, which spreads out the tracks of one
  artist.
- `src/source.rs`: the transport of one song, and the outline that follows its
  sound.
- `src/library.rs`, `src/album.rs`, `src/supervisor.rs`: the pages, and what
  every message makes of them.
- `src/laws.rs`: what holds across the operations of the player and the pages.
- `src/track.rs`, `src/shared.rs`: the music collection, and the handle by which
  threads share it.
- `src/sort.rs`, `src/text.rs`, `src/time.rs`: stable sorting, texts and spans of
  time.

The library decides and the program in `app/` acts: a function of the library
returns what is to be done to the window, the indexer or the sound output, and
the program reports what came of it. `app/` draws its window with the `mtk`
toolkit and plays through `rodio`.
