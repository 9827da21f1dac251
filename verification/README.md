# diane

A small terminal journal and note archive. A record captured from the
command line is appended to today's journal file; without arguments the
program opens a browser over the journal days and the archived notes.

## Layout

- `src/` is the verified library:
  - `text`, `calendar`: characters, trimming, splitting, dates and times,
    and the calls into `chrono` that format and read them;
  - `entry`, `slug`, `stream`: notes and records, their text formats, slugs,
    the journal and archive file contents and names;
  - `app`: the state of the interface and how actions change it, with the
    journal kept as an ordered list of days;
  - `ui`, `screen`: which keys do what, and what each window shows;
  - `theme`, `cli`, `config`: colours and styles, the command line
    argument check, the configured root.
- `app/` is the terminal program: environment and command line parsing,
  the files on disk, and drawing with `ratatui`.
- `tests/` runs the library on concrete values.
