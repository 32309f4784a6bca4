# pscm

A small Scheme dialect with a package installer, whose core is verified with Verus.

- `src/` is the verified library: the lexer (`lexer`), the reader (`reader`),
  exact rationals (`rational`, `rational_order`), decimal numerals (`numeral`),
  values and environments (`expr`, `env`), the decisions of the evaluator
  (`interpreter`), module bookkeeping (`modules`), the decisions of the
  package installer (`package`), and text helpers (`text`). Each public
  function states what it returns in `ensures`, over spec functions and views;
  the laws that relate several functions are public proof functions.
- `app/` is the `pscm` program around it: the command line, the REPL, the
  evaluation loop with its floating-point arithmetic and input and output, and
  the network and file work of the installer.
- `tests/` runs the library on concrete values.
