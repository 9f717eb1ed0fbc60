# harness_cli

A verified core for the harness CLI's event log. Every durable change is an
event appended to a per-writer JSONL file under `.harness/events/`; the
SQLite database is a cache rebuilt from those files.

- `src/` is the library, verified with Verus: canonical event lines, ULIDs
  and timestamps, the replay order, per-field last-writer-wins with its
  causal audit, what each event writes to the cache, incremental replay by
  watermark, the move of a legacy database onto the log and its proof, the
  generated markdown views, brownfield import, the diagram review gate, and
  improvement proposals. Its laws are public proof functions named
  `law_*`. What they state, and no more:
  - replay order: `log::law_replay_order_sorted_permutation` and
    `log::law_replay_order_independent_of_listing` (the events are replayed
    sorted by `(event_id, writer)`, whatever order the files are listed in);
  - story fields: `lww::law_story_updates_converge` (applying the
    `story.update` events one by one in any arrival order leaves each of the
    seven story fields with the same value, that of the latest event in
    `(event_id, writer)` order that sets it) and
    `lww::law_lww_replay_order_independent` (the same for one field's
    updates in general); `lww::law_lww_audit_independent_of_arrival` for the
    causal audit;
  - rebuild and catching up: `lww::law_rebuild_deterministic` (two
    rebuilds of the same log apply the same cache writes in the same order)
    and `lww::law_catch_up_makes_rebuild_writes` (catching up makes the same
    writes as a rebuild, in arrival order: every inserted row is inserted
    either way; updates and deletes other than the story fields take effect
    in arrival order);
  - incremental replay: `sync::law_incremental_sync_matches_full_scan`,
    `sync::law_advanced_watermark_matches_file` and
    `sync::law_first_append_watermark_matches_file` (the watermarks kept
    after replaying or appending lines equal those of a full scan);
  - migration: `genesis::synthesize_genesis` states one event per durable
    row, in replay order; `repository::migration_start` ends a second move
    at once with nothing written;
  - views: `views::law_regenerating_views_twice_writes_nothing`;
  - event ids: `ulid::law_minted_ulids_distinct` (ids minted one after
    another are distinct and in order);
  - timestamps, hashes and ULIDs: the round trips and orderings in
    `calendar`, `timestamps`, `fnv`, `sync` and `ulid`.
- `app/` is the command line: SQLite, the file system, git, the clock and
  the network. It reads and writes; the library decides.
- `tests/` exercises the library on concrete values.
