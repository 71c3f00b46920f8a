# Mangalize

Turns folders of scraped manga images into readable volumes (fixed-layout
EPUB for Kindle, or CBZ), and keeps a library of series, their published
volume layout, the chapters on disk and where the reader left off.

The library in `src/` is written in Verus. Its own functions carry contracts
and are proved against them. The calls it makes into other code go through a
small set of trusted items, whose contracts are believed rather than proved
(see "Assumptions and trusted components" in the Verus guide):

- `compress`: `decode`, `dimensions`, `resize`, `crop`, `rgb_pixels`,
  `encode_luma`, `encode_rgb` (the `image` crate), and the declared types
  `DynamicImage` and `ImageError`.
- `writers::archive`: `new_archive`, `start_entry`, `write_entry`,
  `finish_archive` (the `zip` crate, over the private `ZipBuffer`), and the
  declared types `ZipError` and `io::Error`.
- `fetch::download`: `header_dimensions`, `guess_kind` (the `image` crate) and
  `error_text` (an error's display text); `fetch::data_uri`: `base64_decode`
  (the `base64` crate).
- `writers::timestamp::unix_seconds` (the clock), `text::chars_of` and
  `text::string_of` (a string's characters and back; vstd offers only a
  per-index character read, which would make every string walk quadratic),
  `scan::uppercase` (`char::to_uppercase`), `library::sources::quoted`
  (`Debug` quoting of a string).

- `page`, `sieve`, `natsort`, `scan`, `project`: what a folder of images is —
  which files are pages, spreads or site furniture, in what order, grouped
  into chapters and a volume.
- `compress`, `writers`: rendering pages (splitting spreads, shrinking,
  converting what a Kindle cannot draw) and packaging them as EPUB or CBZ.
- `fetch`: finding a chapter's images on a web page, and planning a batch of
  chapter downloads from one page.
- `meta`: the requests sent to MangaDex and Kitsu and the reading of their
  answers.
- `library`: the index (series, volumes, chapters, reading progress, builds),
  the names its folders get, when removing a series may delete its folder
  (`library::removal`), and what its operations promise
  (`library::promises`).
- `send`, `settings`, `tasks`, `update`, `reader`, `batch`, `cli`, `export`:
  the decisions of the command line and desktop front ends.

`app/` is the command line program around it: argument parsing, files, the
network, and the SQLite file the index is kept in. `tests/` exercises the
library from outside.
