# async_graphql (verified core)

The field resolution core of a GraphQL executor, written in Verus.

- `src/value.rs` — response values and their mathematical model. Objects
  are ordered lists of entries whose keys are kept distinct: an
  `indexmap::IndexMap` held behind trusted declarations was tried and
  refused by Verus, because a map of `Value`s inside `Value` uses the type
  recursively in a position it does not accept.
- `src/search.rs` — the first element of a sequence that meets a condition.
- `src/merge.rs` — building a container's response object from its fields,
  merging fields that share a response key.
- `src/query.rs` — the query document, the schema facts field collection
  reads, and the execution context (paths of values and errors).
- `src/container.rs` — containers and the collection of the fields a
  selection set selects on them (fragments, type conditions, `__typename`).
- `src/list.rs`, `src/object.rs`, `src/subscription.rs` — shaping the results
  of lists, object fields, entity lookups and subscription messages.
- `src/types.rs`, `src/scalars.rs` — input/output types, the optional type,
  and the date/time/duration scalars (through `jiff`).
- `src/executor.rs` — batches of requests.
- `src/codegen.rs` — the decisions behind the code generated for derived
  types.
- `app/` — the asynchronous drivers, the ordered-map value, and the
  `syn`/`quote` side of code generation.
