# object_store_wrappers

Two wrappers around object stores, verified with Verus.

- The mirror sends a write to a fast secondary store first and then to the durable primary store.
  Manifest files go to the primary store alone, and reads come from it.
- The local cache reads and writes a local store first. `commit` brings the local changes to the
  backing store, payload before metadata before what publishes them. `pull` brings the cache in line
  with the backing store. `close` uploads nothing and refuses every operation that is begun after it,
  and also the further parts and the completion of a write in parts, which can only be abandoned. A
  read, write, listing, pull, commit or stream of deletions that was let in before runs to its end.

## Layout

- `src/` is the library. An operation is a value that yields the next call to a store underneath and
  is advanced by the reply, so that every decision is verified and no call is made there.
  - `location`, `location_map`, `text`: paths, maps keyed by them, and their order.
  - `protocol`: calls, replies, errors.
  - `local_cache`: the state of the cache and the rules it is changed by.
  - `operation`, `removal`, `listing`, `pull`, `commit`: the operations of the cache.
  - `mirror`, `wrapper`: the mirror, and what puts either in front of a store.
  - `laws`: what the operations amount to, proved over a model of the stores.
- `app/` implements `object_store::ObjectStore` with the library and makes the calls.
- `tests/` runs the library over stores in memory.
