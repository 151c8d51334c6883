# r6rs

A verified front end for the R6RS dialect of Scheme: a lexer and a parser that
take source text to a surface-syntax tree, with contracts proved by Verus.

- `ast`: the syntax tree. `model`: its mathematical counterpart, of which the
  contracts speak. `copies`: cloning of trees.
- `lexical` states the lexical grammar; `lexer` carries it out (`tokenize`).
- `syntax` states the grammar of data, expressions and programs over tokens;
  `parser` carries it out (`parse_program`, `parse_expr`).
- `laws`, `spelling`, `surroundings`, `soundness`, `comments`, `balance`,
  `writing`, `layout` and `sequence` prove what holds of every source: where
  errors lie, what whitespace and comments mean, that what is accepted is
  balanced, that every tree that can be written is read back, and that programs
  one behind the other mean their forms one behind the other.
- `ascii` and `text` are small helpers.

`app` wraps the errors and identifiers in types that print themselves, and takes
the text of an inexact number to its floating-point value.
