# folder_auto_banner

`f` prints a directory listing with context: project type, git state, sizes,
TODO and line counts, listening ports, docker containers and build results.

- `src/` is the verified library (Verus): every decision and text format of
  the listing, the git status parser, the insight tally, the daemon's cache
  rules and the command-line routing, each with its contract.
- `tests/` exercises the library on concrete values.
- `app/` is the program around it: argument parsing, file system walks,
  running git, docker, ss and lsof, the daemon's socket, and printing.
