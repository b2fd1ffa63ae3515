# minigu

A graph database engine whose rules are proved with Verus.

`src/` is the library. Verus checks the contracts of its functions, but for those that call
`dashmap`, `bitvec`, `crossbeam-skiplist` and the hashing of texts: what they say of these calls is
believed.

- `common` has values, data types, names and numbers as text.
- `transaction` has timestamps and transaction options.
- `storage::ap` keeps edges in sorted blocks and properties in columns of versions, with
  transactions that commit or abort. `storage::ap::model` says what every operation does, and the
  files that end in `_laws` say what holds of all of them together.
- `storage::tp` walks the neighbours and the edges that a transaction sees.
- `catalog` has graph types, schemas and the graphs in them.
- `planner` binds statements, plans them and makes the plans physical.
- `execution` turns physical plans into executors, and changes the catalog.
- `engine` has databases, sessions and the predefined procedures, import and export among them.
- `output` renders results as tables and as JSON.

The maps, bit vectors and ordered sets come from `dashmap`, `bitvec` and `crossbeam-skiplist`. What
the proofs rest on there is written above the functions that call them, in
`src/storage/ap/collections.rs` and `src/storage/tp/neighbors.rs`; hashing a label's name is in
`src/planner/binder/type_element.rs`.

`app/` is ordinary Rust around the library: CSV and manifest files, Arrow arrays, the thread pool,
and the surface that hosts call. `tests/` runs the library on concrete values.
