# cacutils

A small shell with a handful of Unix-style commands (`cat`, `cd`, `cp`, `echo`,
`ls`, `mkdir`, `rm`, `sleep`, `time`) and an `awk`, written in Verus.

- `src/` is the verified library. Each command has a module that decides, from
  its arguments, what the command does (a plan), and computes its output text
  where that is pure computation (`cat`'s options, `echo`'s escapes, `ls`'s sizes,
  the shell's command table and prompt). For `awk` it holds the argument parser,
  the lexer, the parser (`awk_parser`, proved to give exactly what the grammar in
  `awk_syntax` gives), records and fields, the text side of matching and
  substitution, and the reading of `printf` formats.
- `app/` is the program around it: the shell loop, file and process I/O, and the
  `awk` interpreter, whose values are floating-point numbers.
- `tests/` runs the library on concrete inputs.
