# pars

Runs lines of shell commands on a pool of workers, here or on a remote
machine, and stops them on failure as the halt mode says (never, lazy, eager).

- `src/` is the verified library: command-line reading (`pool`, `launch`),
  the worker loop as a state machine (`worker`), what the readers do with a
  line of input (`reader`), decimal numerals (`decimal`) and text helpers
  (`text`).
- `app/` is the program around it: threads, channels, processes, sockets
  and standard input.
