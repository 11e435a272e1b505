# arbitrary

Structure-aware byte encodings, verified with Verus. `Arbitrary` reads values out
of raw bytes; `Dearbitrary` writes a value as bytes that read back as the same
value.

- `src/` is the library. `structured` builds byte sequences, `unstructured` reads
  them, `suffix` and `layout` say where collection sizes stand, `separator` and
  `guard` keep the elements of collections apart. `integers`, `scalars`, `sums`, `pointers`,
  `sequences`, `tuples`, `collections` and `strings` hold the implementations.
  `round_trip` states that what is written reads back.
- `src/derive/` decides what a derived implementation reads and writes: the plan
  for every field and variant, the size hints and the bounds.
- `app/` turns token streams into descriptions of types, and plans into tokens.
- `tests/` runs the library on concrete values.

## What round-trips

Every value does, as far as machine words count its bytes. Elements of a type
without a fixed size are joined with separators, each as it is. Only a chunk that
is empty or makes a separator appear is stuffed, behind a separator of its own.
