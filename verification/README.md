# Phonoscule

A framework for building music players, verified with [Verus](https://github.com/verus-lang/verus), and an
album-focused player built on it.

- `src/` is the library: everything that decides or computes. Each function states what it returns or
  changes, and Verus proves it; the functions named `law_…` state what holds of several together.
- `app/` is the player around it: files, desktop services, the audio output, the window and the terminal. It
  performs what the library asks for and reports back what came of it.
- `tests/` runs the library on concrete values.

## The library

| What | Modules |
|---|---|
| Streams, containers and codecs | `io`, `wav`, `wav_stream`, `demux`, `opus`, `seeking`, `track`, `metadata`, `tags` |
| Samples | `sample`, `pcm`, `plumbing`, `sink` |
| The library of albums | `scan`, `assembler`, `drive`, `course`, `library`, `cache`, `covers`, `watcher` |
| Browsing | `search`, `sort`, `order`, `browse`, `album_grid` |
| The queue and its playback | `queue`, `player`, `playlist`, `session` |
| The graphical player | `model`, `update`, `promises`, `keys`, `display`, `coverflow`, `hires` |
| The terminal player and the microcontroller | `cli`, `logger`, `micro` |
| Desktop services | `media`, `mpris`, `smtc`, `volume`, `console` |
| Configuration | `args`, `config`, `conf`, `dirs`, `path`, `paths`, `text` |

What the library has from other crates (decoding a packet, parsing TOML, reading a page of Ogg, scaling a
picture) stands behind small functions marked `external_body`; the comment above each says what its contract
claims of the crate, which is believed and not proved.
