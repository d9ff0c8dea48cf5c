# aplang

A lexer, parser and run-time support for ApLang, a small language modelled on
the AP Computer Science Principles reference sheet, written in Verus.

## Layout

- `src/` is the verified library.
  - `token.rs`: token kinds, tokens, operators and keywords.
  - `lexer.rs`: the specification of lexing (`lex`, a function on the
    characters of the source) and the `Lexer` proved to compute it, with laws
    on the tokens it produces.
  - `ast.rs`: the syntax tree and its mathematical view.
  - `parser_spec.rs`: the grammar as functions on token kinds, including error
    recovery.
  - `parser.rs`: the recursive-descent `Parser`, proved to agree with the
    grammar.
  - `parser_laws.rs`: laws of the grammar: every read moves forward, and
    every tree and error it gives names tokens within the sequence, of the
    kinds their places need.
  - `aplang.rs`: the stages of a program (read, lexed, parsed, run) as types.
  - `env.rs`: variable scopes.
  - `robot.rs`: the robot of the `ROBOT` module: reading a map, moving,
    turning, capturing checkpoints in order and drawing the area.
- `tests/` runs the library on concrete inputs.
- `app/` is the `aplang` command: the command line, reading files, error
  reports, and the interpreter with its standard library, which computes with
  floating-point numbers and so stays outside the verified part.
