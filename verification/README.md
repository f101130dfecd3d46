# Order book listener

Keeps the order books of all coins of a node, block by block, from the files that the node
writes, and tells subscribers of every change.

- `src/` is the library, in Verus: books, levels, the state at a block, the queues, the work on
  lines, the comparison with fetched snapshots, and the decisions of the main loop. Its contracts
  say what every function does; `state_laws.rs`, `listener_laws.rs` and `line_laws.rs` hold what
  stays true through all blocks and events.
- `app/` is the program around it: arguments, files, the watcher, the network, the clock, and the
  node's JSON.
- `tests/` runs the library on concrete values.

Four things are taken on trust: that `rayon` maps a list item by item and in order, that `alloy`
compares addresses by their bytes, how `alloy` writes an address, and how `std` writes a text in
quotation marks.
