# a2app

The verified core of A2App, a system in which a coding agent (the pi
extension) builds small Makepad "splash" apps and runs them in a host window.
Three processes talk: pi speaks JSON over a WebSocket to the harness, and the
harness shares a CRDT document (`AgentDoc`) with the makepad-host.

`src/` holds, with Verus contracts and proofs:

- `doc` — the shared agent document and every write that either side makes;
- `bridge` — what each message from pi does to the document, and which
  document changes the harness forwards to pi (each once);
- `host` — when the host wakes its UI, which UI changes a document state calls
  for, and what a debug command asks of the host;
- `splash` — the source a splash body is evaluated as, the `runsplash` code
  blocks in agent answers, the activity log, and one splash widget's
  bookkeeping;
- `router`, `state`, `apps` — the request queue between host and harness, the
  host's command channel, and the host's picture of the launched apps;
- `text` — character-level searching and trimming;
- `laws` — properties of the protocol as a whole.

`app/` is the plain Rust around it: the WebSocket servers, the samod CRDT
sync, the Makepad UI, and the serde and autosurgeon copies of the library's
types. `tests/` exercises the library on concrete values.

Apps are kept by id in a `Vec` of `(id, value)` pairs rather than a
`HashMap<String, _>` (the host's apps, the request document's mini apps and
their stored values). For a map keyed by `String`, vstd's specifications let
Verus prove nothing about what a lookup or an insert does, so the laws about
which apps the host knows could not be proved over one. The pairs come with
the invariant that each id occurs once (`RequestDoc::wf`,
`host_ids_distinct`), which the conversion in `app/` from the document's maps
gives.
