# prefix_dictionary

A prefix dictionary for morphological analysis, verified with Verus. It maps surfaces to word
entries through a double-array Aho-Corasick automaton, finds the entries of every surface that a
text starts with, and computes the left-space penalties of Korean words from their
part-of-speech tags.

- `src/` is the verified library. `dictionary` and `archived` hold the lookups, and `laws` and
  `growth` state what holds of them together.
- `app/` stores dictionaries with serde and rkyv.
- `tests/` runs the library together with the crates that it calls.

Searching, encoding and decoding the automaton is left to daachorse, and reading integers to
byteorder. What the proofs take on trust of them, and of std, stands in the contracts of the
functions marked `external_body` in `automaton`, `bytes` and `text`, and in the specification of
`String::push` in `text`.

A lookup asks that the automaton can be searched. `prefix` and `find_surface_iter` read an entry
when its turn comes, and only then must it be stored; `find_surface` reads all of them. For a
dictionary that comes from bytes of unknown origin, `try_prefix`, `try_find_surface` and
`try_common_prefix_iterator` test all this first, and `try_next` and `try_collect` test each entry.
