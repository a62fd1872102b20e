# alyze

Word and sentence boundaries of Unicode text after UAX #29, verified with Verus.

`uax29::word::tokenize` and `uax29::sentence::tokenize` walk a text once and hand each boundary, as
an offset in bytes, to a callback, until it returns `false`. With a word boundary comes what is known
of the token that ends there: whether it is word-like, whether it is ASCII, and, on demand, whether it
holds an ASCII uppercase letter.

- `rules.rs` states the boundary rules over the properties of the characters.
- `transitions.rs` holds the automaton, and the proof that each of its steps decides what the rules
  say.
- `scan.rs` holds the fast paths for ASCII, which classify several bytes at a time.
- `reports.rs` states what a tokenizer reports; `mod.rs` proves that it reports just that.
- `laws.rs` states what holds of the boundaries of every text.
- `unicode.rs` asks `icu_properties` for the properties of characters outside of ASCII. What it
  answers is not verified.
