# aerial_core

The core of a desktop wallpaper that plays Apple's Aerial screensaver videos:
reading Apple's catalog, choosing what to play, and keeping a bounded local
cache of the videos. The library is written in Verus, and every function in
it is verified against its contract.

## Layout

- `src/` — the verified library.
  - `manifest.rs` — normalizing Apple's catalog entries, picking a URL per
    quality tier, the time-of-day playlist filter, and the liveness and
    fallback rules for the catalog.
  - `archive.rs` — finding the `entries.json` member in Apple's resource tar
    (the `tar` crate reads the archive; which member counts is decided here).
  - `cache.rs` — the cache index: file names and paths for ids,
    least-recently-played eviction within a byte budget (sparing the clips in
    use), and the download window that admits one new video per interval.
  - `qml.rs` — the state behind the QML-facing objects: the asset list model,
    the cache-hit index the GUI thread reads, and the settings.
  - `laws.rs` — properties that span several operations, stated and proved as
    proof functions.
  - `text.rs`, `assoc.rs`, `foreign.rs` — string helpers, association lists
    read as maps, and the outside error types the library carries.
- `tests/` — tests of the library on concrete values.
- `app/` — the I/O around the library: the HTTP client and runtime, fetching
  and parsing the catalog with serde, the asynchronous cache that reads,
  writes and deletes files, and the glue the QML objects call.
