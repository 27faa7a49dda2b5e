# luy

A structural search tool for source code. A query such as

    fn { body contains call { contains "needle" } }

selects the syntax nodes of a kind (`fn`, `comment`, `call`) whose fields
(`name`, `params`, `body`, `returns`, or the node itself) pass predicates
(`=`, `matches`, `contains` a text or a nested pattern).

The library in `src/` is verified with Verus:

- `lexer` turns a query into tokens, `parser` turns tokens into the
  intermediate representation of `ir`; both are proved to follow their
  specifications exactly.
- `syntax` reads a `tree_sitter` tree into a preorder array of nodes;
  `parser::parser_pool` keeps one `tree_sitter` parser per language.
- `language` says how each grammar spells kinds and fields.
- `query::walking_engine` reports, in preorder, exactly the nodes that a query
  matches.
- `text` holds the string operations these need, and the calls into `regex`.

`app/main.rs` is the command line front end: it walks a directory, reads the
files and prints the matches.
