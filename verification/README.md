# wrap

A small utility to wrap other commands, like `alias` but with default
arguments that the user's own arguments can clear, keyword replacements, and
variables (`$NAME`, `${NAME}`, `~`, and the positional references `$#`).

- `src/` is the library, verified with Verus: the argument grammar and its
  expansion, keywords, default arguments, aliases, the printed form of a
  command, the `--dry-run` flag, what `run` prints or executes, and what
  installing the aliases in a shell writes.
- `app/` is the program: command-line parsing, reading the configuration
  files and the environment, writing the shell's configuration, and
  replacing the process by the command.
- `tests/` runs the library on concrete values.
