# control_plane

The rules of a data control plane, verified with Verus: a catalog of tables and views with
their snapshots, a job queue, lineage, transforms, an ontology, access rules, users and
sessions, streams and the views that follow them. The control plane exists in memory, and
over Postgres with an Iceberg catalog and an object store.

- `src/` holds the library. What is held in memory is kept and changed here; of what is kept
  elsewhere, the library decides what is asked, what is written and in which order. A
  decision that takes several questions is a function from a state and an event to the next
  state and the next action.
- `app/` carries the actions out: SQL, Iceberg, the object store, the clock of the workers.
- `tests/` runs the library on concrete values.

Instants are nanoseconds since the Unix epoch, identities are 128-bit numbers, JSON goes by
its text, and floating-point values by their bits or their text.
