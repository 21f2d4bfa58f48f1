# auto_sync

A directory synchronisation daemon whose decisions are verified with Verus.

The library under `src/` holds everything that decides or computes: what a
configuration may say, which machines it means, which cycles destinations are to
reach, how messages of other machines are read, what is run on remote hosts, and
what the daemon does next. It reads no files and opens no connections. What it needs
to know of the world is handed in as values, and what is to be done comes back as
values. The program under `app/` does the rest.

| Modules | What they hold |
| --- | --- |
| `text`, `bytes`, `paths`, `sorted`, `seqs`, `ipv4` | Texts, paths and lists |
| `config` | The configuration: its rules, its stored form, and what it means |
| `machines`, `pool`, `peer_notify` | Other machines and the connections to them |
| `http`, `chunked`, `response`, `ndjson` | Requests, and answers read piece by piece |
| `clock`, `scheduler`, `standby` | Schedules, and disks that sleep between them |
| `state` | Cycles, events, targets, tasks and reports |
| `collector` | Collecting files from hosts over ssh, and deploying to them |
| `backend` | Requests of users and of other machines |
| `daemon` | The loop of the daemon, its lock, its units and its reports |
| `cancel`, `signal`, `progress`, `status`, `storage` | What runs, and what it runs on |

Each executable function states in its contract what it returns. Properties that span
functions are public proof functions beside them, such as
`state::targets::due_destinations_get_the_closed_cycle` or
`chunked::read_boundaries_do_not_matter`. Calls into other crates (`chrono`,
`blake3`, `serde_json`) stand behind small functions whose contracts are taken on
trust; each says which function it calls and what it claims.

Paths are those of Unix: components are separated by `/`.
