# lox front end

A scanner, parser and variable environment for the Lox language, written in
Verus with contracts on every public function.

- `src/lexer.rs` — tokens and the scanner. The scanner is specified as a state
  machine over the source characters (`scan_from`), with byte offsets for
  slicing; `law_scan_result` states what every completed scan yields.
- `src/parser.rs` — the recursive-descent parser, specified rule by rule
  (`primary_at` … `program_from`); `law_parse_reaches_end` and
  `law_parse_errors_name_input_tokens` state what a parse gives back, and
  `law_parse_defined` when it is defined.
- `src/environment.rs` — nested scopes of variables, viewed as a sequence of
  maps, with the laws that relate `get`, `set` and `assign`, and block entry
  and exit (`law_block_variables_do_not_outlive_it`).
- `src/interpreter.rs` — runtime values over any number type, truthiness,
  equality (`law_equality_of_values`), and what each operator does with the
  kinds of its operands.
- `src/error.rs`, `src/expr.rs` — error types and their messages.
- `src/text.rs`, `src/number.rs`, `src/utils/` — decimal and debug text, the
  grammar of number text that `f64` parsing accepts, and byte decoding.
- `app/` — the command-line interpreter: file and console input, and the
  `f64` arithmetic and number formatting of evaluation.
