# postcard-bindgen-core

The core of a bindings generator for the postcard byte format: a registry of
the container types (structs, tuple structs, unit structs and enums) that
bindings are generated for, the descriptions of their value types, the module
tree the containers are sorted into, and the generator of a Python package
that serializes and deserializes values of those containers. Python is the
one target language that this crate generates code for.

The library's own functions carry contracts that Verus proves. The calls
into the `tree_ds` and `convert_case` crates and into `str::to_uppercase`
stand behind small trusted functions (`src/tree.rs`, `src/code_gen/utils.rs`)
whose contracts say what those calls do; those contracts are believed, not
proved.

## Layout

- `src/path.rs`: path buffers and joined paths.
- `src/text.rs`: splitting and joining strings, with the laws that connect
  the two.
- `src/type_info.rs`: value type descriptions and the `GenBinding` trait with
  its implementations for the primitive types, the collections of `std` and
  `heapless` and tuples.
- `src/registry.rs`: the registry, the module tree (kept in a `tree_ds` tree,
  see `src/tree.rs`) and its flattening.
- `src/order.rs`: a stable sort used to order modules by height.
- `src/code_gen/`: identifiers of containers, paths to values in generated
  code, and the Python generator (`src/code_gen/python/`): the line model of
  generated code, imports, the code for value types and containers, and the
  files of the generated package.
- `tests/`: tests on concrete values.
