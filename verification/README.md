# skyhawk_rust

Skyhawk ingests NBA-style game events and answers statistics over them. Front nodes
accept events over HTTP, publish them to Kafka and keep recent events in an in-memory
cache; back nodes store the events in PostgreSQL and publish removal markers that let
the front nodes drop what has been stored.

`src/` is the library, verified with Verus:

- `text`: Unicode whitespace, trimming, blank checks, upper-casing, joining.
- `domain`: events (`Log`), their time keys and cache records, the statistics.
- `api`: acceptance of events (validation and normal form), error answers, season copies.
- `services`: normal form of statistics requests, aggregation per team or player, the
  combination of stored, cached and fetched events; exchange with other front nodes.
- `storage`: the statistics query, and the in-memory cache (`RuntimeStore`), a
  `dashmap::DashMap` of `crossbeam_skiplist::SkipMap` timelines behind trusted wrappers.
- `kafka`: what the consumers decide; grouping and stable ordering of a batch.
- `config`, `discovery`, `shutdown`: configuration, the list of front nodes, supervision.

Numbers of minutes are held as IEEE 754 bit patterns (`Minutes`); the library compares
them with zero and hands them on, and the float sums are taken in `app/`.

`app/` holds the two programs (`front` and `back`): HTTP, Kafka, PostgreSQL, JSON and
the environment.
