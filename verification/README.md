# fpr_cli

Building blocks for command-line programs, verified with Verus.

- `src/` is the library. Every function is proved against its contract, except the small
  wrappers marked `#[verifier::external_body]` that call std, itertools, unicode-width,
  fuzzy-matcher and regex; their contracts are trusted and their doc comments say so:
  - `parse`: a command line split into groups by option key, option values read into
    typed values with static or computed defaults;
  - `lib`: menus of actions and commands, help and usage texts, error messages;
  - `internal`: a second, index-based reading of a command line;
  - `values`: reading integers, booleans, characters and strings from a token;
  - `table`: aligned text tables;
  - `fuzzy`: ranking completion candidates by fuzzy score;
  - `sh`: turning annotated shell scripts into Rust functions, and shell glue for commands.
- `app/` holds what talks to the process, the terminal and the file system: reading the
  command line, printing help, prompts, directory scans, build-script entry points.
- `tests/` runs the library on concrete inputs.
