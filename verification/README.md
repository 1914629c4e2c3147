# fab_line

The rules of a semiconductor assembly line whose stations talk over Kafka: what
each station makes of a record, what it commits and when, what it reports, and
what the dashboard counts. The library is written in Verus, and its contracts
are proved.

- `src/stations/` holds the stations: probe intake, die attach, wire bond,
  inspection, mold and cure, final test, and its twin without transactions.
- `src/dashboard/` folds the metrics, ledgers and dead letters of the line into
  one model, and answers over HTTP.
- `src/simulator/` plays static record sets onto the input topics.
- `src/json.rs`, `text.rs`, `kafka.rs`, `measure.rs`, `ordered_map.rs`,
  `stats.rs`, `clock.rs` and `random.rs` are what these share.
- `app/` is the plain Rust around the library: sessions, producers, settings,
  files, and the arithmetic on floating-point numbers.

A measured number comes into the library as the bits of a double together with
how it is written. The library orders such numbers exactly; means, deviations
and rates are computed in `app/` and handed in.
