# bif

`bif` ("Before I Forget") is a lazy note-taking tool for the terminal: each note is a
one-line record appended to a tracked `.bif` file.

```
<stamp>\t<tags>\t<body>[\t<meta_json>]
```

The stamp is `timestamp|LEVEL|SOURCE?`, tags are comma-separated, the body (and the
metadata JSON) are escaped so that a record stays on one line.

## Layout

- `src/` is the library, verified with Verus: the record format (`domain::entry`), the
  human-facing stamp layout and its UTC calendar (`domain::stamp_format`,
  `domain::calendar`), stamp providers and their metadata (`domain::stamp_provider`,
  `domain::meta`), file names, the text edits behind `read`/`delete` on a log's contents
  (`storage`), command-line parsing and the decisions each command takes (`cli`), and the
  configuration's canonical JSON and hash (`cli::config`).
- `app/` is the program around it: reading and writing files, the environment, the
  configuration files (serde), and printing.
- `tests/` runs the library on concrete inputs.

Verify with Verus from this directory; the crates named in `Cargo.toml` are needed to
build.
