# wherefrom

A small macOS command-line tool that prints the origin URL(s) recorded for a
file in Spotlight metadata (`kMDItemWhereFroms`).

- `src/` is the verified library: command-line parsing (`parser`), the
  selection of the string values among the recorded ones (`origins`), the
  output records for the human-readable, `--print0` and `--jsonl` formats
  (`printer`), and the help, version and error texts (`cli`). Each public
  function states its result exactly; the laws of the library are public
  proof functions beside the functions they speak of.
- `app/main.rs` is the program: it reads the arguments, asks Spotlight for
  the metadata through `mdquery-rs` and CoreFoundation (macOS only), hands
  the library plain values, and writes what the library formats.
