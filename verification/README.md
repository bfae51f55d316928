# runin

Pick a project directory with `fd` (or `zoxide`) and `fzf`, and run a command
inside it.

- `src/` is the library, with its contracts and proofs: the managed block in
  shell startup files, shell quoting and integration scripts, home-directory
  shorthands, the picker's candidates and outcome, the command to run, and the
  decisions and reports of the `runin` command. The properties that hold
  across calls are proof functions there, each with its conditions: for
  instance, installing the startup block twice gives what installing it once
  gives when no line outside a managed block ends in a carriage return, and a
  path quoted for a POSIX shell reads back as the path.
- `app/` is the program around it: command line, configuration file, terminal
  prompts, processes and files.
- `tests/` runs the library on concrete values.
