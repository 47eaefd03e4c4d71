# rudb

The columns of an embedded analytical database, and the decisions it takes around them, written in
Verus: every function states what it returns and is proved to.

- `src/vector.rs` and `src/vector/` are the column: one logical type, one length, a mask, and the
  values in one of a dozen forms, each read, cut, gathered, flattened and packed so that the rows
  come out the same.
- `src/data.rs`, `bits.rs`, `strings.rs`, `fsst.rs`, `text.rs` and `validity.rs` are what those
  forms are made of.
- `src/database.rs`, `facts.rs`, `native.rs`, `shape.rs`, `statement.rs` and `tally.rs` answer a few
  statements from what a file keeps beside its columns, as the rows would.
- `src/scan.rs` and `spelling.rs` read and write words, numbers and the messages of errors.
- `src/execute.rs`, `route.rs`, `steps.rs`, `transaction.rs`, `checkpoint.rs`, `cache.rs`,
  `links.rs`, `plan.rs`, `rows.rs`, `upsert.rs`, `sink.rs`, `appender.rs` and `meter.rs` decide what
  a statement does, in which order, and what is kept of it.
- `app/` is the edge: files, the clock, the machine and floating point.

The public proof functions whose names begin with `law_` say what holds of several functions
together.
