# catly

The front end of Catly, a small functional language: a lexer, the LR
parsers for expressions, type annotations, top-level definitions and whole
programs, and the data they produce.  Every function is proved correct
against a mathematical model of what it computes.

Layout of `src/parser`:

- `preprocess`: the lexer, from source text to tokens (`spec_lex`); a
  comment starts at `# ` and runs to the end of the line.
- `alphanum`, `char`, `mark`, `keyword`, `name`: characters, marks, keywords
  and names.
- `types`: `Type`, sum types kept as canonical sets (`canon_types`), and
  `parse_type`.
- `expr`: the expression parser.  `rules` states the grammar as one
  reduction step on the parser stack (`reduce_step`), `reduce` and `lr`
  run it, `pat_type` and `typed` turn the final pattern into a `Type` or an
  `Expr`, `annotation` and `render` work on expressions; `psum` keeps the
  alternatives of a sum type as a set; `parens`, `group`, `sugar`, `curry`
  and `alts` prove that parentheses, the shared `let`, curried closures and
  alternatives of types parse as the language promises.  The `Expr` of
  `parser::expr` is the older form without annotated names.
- `define`: top-level `type` and `def` definitions.
- `ast`: a program split into definitions and parsed all or nothing.
- `infra`: small helpers on vectors, strings and options.

The laws of the library are the public proof functions whose names start
with `law_`.
