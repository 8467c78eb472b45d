# LeafLang lexer, verified

A lexer for LeafLang source, a tokenizer for the Rust modules that LeafLang
programs include, and a parser that writes tokens back out as Rust text.
Every function of the library is verified with Verus against a contract
stated over mathematical models of its inputs and outputs.

- `src/tokens/token.rs` — tokens, types and variables, and their models.
- `src/text.rs` — scanning helpers over character sequences.
- `src/literal.rs` — the numeric literals that `f32` and `i32` parsing accept.
- `src/lexer/lexer.rs` — the lexer: definitions, includes, strings, returns.
- `src/lexer/modules.rs` — tokenizing included Rust modules.
- `src/parser/parser.rs` — writing tokens as Rust text.
- `app/main.rs` — the program: reads the source and the included module
  files, runs the lexer and the parser, prints the result.

Scans that would never end (a definition, include, call or string that is
never closed) are reported: as `Tokens::Invalid`, `None`,
`IncludeCall::Unterminated` or `ModuleError::Unterminated`.
