# maid

A file organiser, verified with Verus. It sorts the files of a directory into
category folders by extension, converts documents to markdown with external
tools, quarantines notes that a secret checker rejects, and keeps a record of
each run so that the run can be undone.

Layout:

- `src/` — the verified library.
  - `text.rs`: character-level string helpers and the lowercase mapping.
  - `path.rs`: Unix paths held as strings (join, file name, parent, extension,
    component-wise equality).
  - `config.rs`: the settings, their defaults, and how a parsed settings file
    becomes them; classification of extensions, destinations, converters.
  - `organiser.rs`: scanning a listing, planning each file's action, the run
    record (`Tally`), headers for notes files, and the undo plan.
  - `platform.rs`: the user's directories and the clock.
  - `error.rs`: the library's errors.
- `app/` — the `maid` command: argument parsing, file-system work, running
  `which`, `obfsck`, `pandoc`/`marker`, TOML and JSON reading and writing.
- `tests/` — tests of the library on concrete values.
