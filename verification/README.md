# cove_optimizer

The decision logic of a Windows maintenance tool, verified with Verus:
bloatware inventory and removal requests, crash-dump listings, cleanup
targets and the cleanup walk's decisions, disk health (chkdsk planning and
results, the last chkdsk record, drive ratings, TRIM), the signed-driver
audit, PnPUtil `/enum-devices` parsing, and the SDIO driver-pack pipeline
(index catalogues, device matching, OS applicability, local packs, bounded
7z inspection, payload inventories, package-tree planning and population
planning, install plans, the staging decisions for an INF and its
catalog).

Layout:

- `src/` — the verified library. `text.rs` holds the character-sequence
  specifications shared by the parsers; `drivers/enum_devices.rs` states the
  PnPUtil grammar as a state machine that `drivers/pnputil.rs` is proved to
  compute.
- `tests/` — tests of the library on concrete values.
- `app/` — the Windows side: PowerShell, PnPUtil, chkdsk and fsutil
  invocations, the file-system walk, reading SDIO indexes and 7z headers,
  staging an INF as the library's staging steps direct, and the
  serializable copies of the report types.
