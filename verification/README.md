# compiler

A small compiler for an expression language, verified with Verus.

`compiler::compiler::compile` turns source text into the text of an
intermediate representation, one instruction per line:

- `tokenizer`: source text to tokens (the lexical classes are recognised by the
  `regex` crate; lines, comments, keywords and locations are handled here);
- `parser`: tokens to a tree, with operator precedence and associativity;
- `type_checker`: types of the tree, filled into its type slots, with scopes
  kept in `symtab`;
- `ir_generator`: the checked tree to instructions (`ir`) over fresh variables
  and labels.

Each stage is stated as a specification function over sequences and tree
values (`spec_tokenize`, `spec_parse`, `spec_check`, `spec_generate`), and the
executable code is proved to compute exactly what they say. Proof functions
named `law_...` state properties of the stages as a whole.

`app/` holds the program around the library.
