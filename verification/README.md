# vfs-storage-hub

A user-scoped virtual file system over pluggable storages. The library decides; the
`app/` crate carries out.

- `src/` is the library, verified with Verus: every function has a contract, and the
  public proof functions state what holds of several of them together.
- `app/` is ordinary Rust around it: storages behind OpenDAL, databases, tasks, clocks
  and files.
- `tests/` runs the library on concrete values.

## Modules

| Module | What it decides |
| --- | --- |
| `scoped` | paths of a user's scope, quota, admission, settlement of journaled operations, listings |
| `protected` | the format of protected payloads: header, masking, ciphering, authentication |
| `wal` | states of the write-ahead log, recovery, queries |
| `cache` | the read cache and the write-back cache |
| `batch` | destinations, progress and verdicts of batch tasks |
| `mounted` | routing into mounts, copying between storages, synchronisation |
| `hub`, `settings`, `pool`, `connector` | routing by role and user, settings of new users, fall-back to a backup, driver options |
| `listing` | sorting, filtering and paging of entries |
| `maintenance`, `maintenance_mode`, `metrics`, `journal` | upkeep, locked users, counters, events |
| `android_saf`, `ios_scoped_fs` | storages of picked directories on devices |
| `text`, `octets`, `order`, `pathname`, `ledger`, `weights`, `types`, `error` | what the others are built of |

## What is trusted

Calls into outside crates and into parts of the standard library stand behind small
functions marked `external_body`. Each of them names the function it calls and states
what is taken for granted of it.
