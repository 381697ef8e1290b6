# arg_tokenizer

A verified tokenizer for command-line arguments. Given an args slice and a predicate that says
which flags take a value, it classifies every argument into flags, their values, positionals and
the `--` boundary, under POSIX or MSBuild conventions.

- `src/token.rs`: tokens, dialects, and the model of a token.
- `src/rules.rs`: arguments, predicates, and `TokenizeOptions`.
- `src/grammar.rs`: which token sequences a command line reads as. The contracts of `tokenize` and
  `tokenize_with_options` are stated over it.
- `src/scanner.rs`: the tokenizer.
- `src/lookup.rs`: finding the boundary and flags in the result.
- `src/text.rs`: character-level operations on UTF-8 text.
- `src/laws/`: what holds of every classification.

A predicate is any `Fn(TokenKind, &str) -> bool`. The contracts do not assume that it answers the
same flag alike every time: a classification is one that some possible answers account for
(`CommandLine::tokenizes`). Where every question has at most one answer, there is at most one
classification (`laws::answers::law_unique`).
