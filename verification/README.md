# rush

A small interactive shell. The library (`src/`) holds the shell's decisions, each
function with a contract proved by Verus; the program in `app/` does the terminal, the
processes and the files, and asks the library what to do at each step.

- `parser`: the command-line parser (commands, arguments with their character ranges,
  `&&`, a trailing `&`, double quotes, and the problems left open), and the plan for
  running a parsed command (`cd` is carried out in the library, up to the canonical
  form of the new directory, which the program finds on disk).
- `line`: running a line: its commands in order until one fails, then recording the
  line in the history and resetting the prompt.
- `history`: per-directory history kept as a map with distinct paths, stepping back and
  forth through it, recording a run, and the Base64 file names of the history files.
- `prompt`, `cursor`: editing the line at the cursor, the cursor's columns, and the
  working directory as the prompt shows it.
- `suggest`: suggestions from the newest history entries that extend the input.
- `event`: what each terminal event does to the shell and what the caller does next.
- `paths`, `text`: Unix path joining and components, and string editing by byte offset.

`app/` is the program around it: the terminal (crossterm), starting programs and
waiting for them, making a directory path canonical, the history files and their
worker (tokio), and the on-disk format of history entries (serde, bincode).
