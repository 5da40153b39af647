# music_native

The native core of a music player: an on-disk cache of songs, images and JSON
documents, a streaming cache that throttles a download against playback, the
decisions of the decoder (seek, trim, clock, discard) and of the output device
selection.

- `src/` is the verified library (Verus). Each public function states what it
  returns or changes; the laws of the library stand there as public proof
  functions named `law_*` or `lemma_*`.
  - `intervals` — canonical lists of half-open byte ranges.
  - `text` — the string helpers the rest is written with.
  - `cache` — buckets, keys, the index (`CacheCatalog`), eviction, settings,
    file layout, per-song stream metadata and the plan for a song request.
  - `audio` — storage throttling state, seek and trim arithmetic, playback
    clock and shared playback state, download control, cache progress
    tracking, sample formats, output configurations and device lists.
  - `player` — playback status, requests and the worker's state machine.
- `app/` is the unverified shell: file and network I/O, the decoder and
  output threads, and the Node bindings. It calls the library for every
  decision.
- `tests/` runs the library on concrete values.
