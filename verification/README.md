# dcalc

A derivative calculator, as a verified library and a small command line
program.

- `src/` — the library, verified with Verus:
  - `tokenizer.rs` cuts a function definition into tokens, each with the
    priority its parentheses give it;
  - `numerals.rs` decides which lexemes are numbers (the strings `f64`
    parsing accepts); numbers are kept as the numerals they were written with;
  - `ast.rs` holds function trees and the two ways they display (one line, and
    one node per line);
  - `derivatives.rs` states the derivation rules as a specification, derives
    trees by them and proves laws about derivatives;
  - `functions.rs`, `patterns.rs` and `text.rs` hold the known functions, the
    calls into the `regex` crate and small facts about strings.
- `app/` — the program: command line and error messages.
- `tests/` — tests of the library.
