# asciinema scenario library

A verified library for recording scripted terminal sessions: it reads
scenario scripts (shell scripts with `#$` directives), decides what the
recorder types, waits for and marks, where the recording and its media go,
what the monitor draws, and how a recording is converted.

- `src/` — the library, written in Verus; its functions carry contracts that
  Verus proves, and the laws that span functions are proof functions.
- `tests/` — tests of the library on concrete values.
- `app/` — the program around it: arguments, files, the pseudo-terminal,
  the terminal monitor, ffmpeg. The cast file format and GIF rendering are
  supplied by the caller.
