# wincode

A verified binary serialization library. Schemas say how values of a type are laid out as bytes;
every function carries a contract over a mathematical picture of input, output and layout, and
Verus proves it.

- `src/model.rs`, `src/io.rs`: input and output as sequences of bytes; readers and writers.
- `src/config/`: configurations (order of bytes, layout of integers, lengths and tags, limits on
  memory and on input), and the functions that serialize and deserialize under one.
- `src/serde.rs`: the same under the default configuration.
- `src/schema/`: the traits `SchemaWrite`, `SchemaRead`, `SchemaReadContext`, `ZeroCopy`, and the
  schemas: numbers, text, ranges, times, addresses, arrays, pointers, options, and collections.
  `RoundTrip` states that what is written is read back.
- `src/schema/containers/`: collections whose length encoding, and whose reaction to a repeated key,
  can be chosen.
- `src/schema/external/`: the collections of the `indexmap` crate, which keep the order of
  insertion.
- `src/laws.rs`: what holds of the library as a whole.
- `app/`: error messages and conversions from and to types of the standard library that Verus does
  not know, such as floating-point numbers, network addresses, cells and locks.

A schema states what writing a value comes to (`emit`) and what reading gives (`dec`): the value and
what is left of the input, or why the read fails and what is left then. Both are functions on
sequences of bytes, so that laws on them need no account of readers and writers.
