# solana_simulation

A small toolkit for testing Solana programs.

- `src/` is the library. It decides: which network a description stands for, what is signed by
  whom, what becomes of the accounts after a call of a native program, which programs belong to
  which bank. It is verified with Verus, and the laws that hold of the whole are the public proof
  functions whose names start with `law_`.
- `app/` reaches out: it talks to nodes and to the bank, and calls programs. It hands plain values
  to the library and carries out what the library decides.
- `tests/` runs the library on concrete values, next to the SDK where there is something to compare
  with.

The library relies on `solana_sdk`, `hashbrown`, `bincode` and the standard library for what only
they can do. Each such call is a private function marked `external_body`; its doc comment says what
is taken for granted.
