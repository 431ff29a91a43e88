# address_translation

A tutor for segmented-memory address translation. It generates a random
segmented memory layout (code, heap and stack segments), asks the student to
translate a virtual address to a physical address or to find the virtual
address a given percentage into the stack, checks the typed answer, and shows
the worked solution step by step. Questions and answers use binary, decimal or
hexadecimal.

The library in `src/` is verified with Verus:

- `digits`, `lib_fns`: reading numbers in bases 2 to 36, the digit check of an
  answer, the number of bits of a value, binary renderings (padding, hyphen
  rows, groups of four), random even numbers and powers of two.
- `segments`: the segment model (sizes in tenths of K), the translation
  formula, the stack-percentage formula, the layout checks, the random layout
  and the random virtual address.
- `questions`, `solutions`, `answers`, `menus`, `files`: the texts shown to the
  student and the reading and checking of typed input.
- `problems`: a whole problem (prompt and worked solution) of a chosen kind.
- `laws`: properties that relate these functions.
- `random`: the one place where the `rand` crate is called.

`app/` holds the Rocket web server that serves the problems; `tests/` holds
the tests.
