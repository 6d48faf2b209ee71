# cli_text_processor (crate `lib`)

A small text-processing library, verified with Verus.

- `src/text.rs` — characters, white space, words, lines and trimming;
  decimal formatting and parsing with std's error cases.
- `src/commands.rs`, `src/config.rs`, `src/error.rs` — reading the command
  line `[<file>.txt] <command> [options] [--flags]` and the help texts.
- `src/processor.rs` — text statistics (lines, words, characters, distinct
  words) and their report.
- `src/lessons/` — the exercises that lead up to the processor (ownership,
  borrowing, lifetimes, generics, error handling, enums).
- `app/` — the command-line front end and the walk-through programs of the
  exercises, including their floating-point examples. Given only a week's
  name (`week-01-ownership` .. `week-06-enums`), the program runs that week's
  walk-through.
