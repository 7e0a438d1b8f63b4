# snerd

An embedded background job engine. Jobs live in an append-only log file; no database and no
daemon is needed.

`src/` is the library, written in Verus. It holds the state that is rebuilt from the log and the
rules by which jobs are admitted, lined up, dispatched, run, retried, rescheduled and buried, and
it makes the text that the dashboard serves. Each function states what it does in `requires` and
`ensures`, and Verus proves it, but for eight small wrappers around functions of chrono, cron,
serde_json, uuid and std, whose contracts are believed. Proof functions whose names begin with `law_` state what holds of
several steps together.

| Module | What it holds |
|---|---|
| `task`, `time`, `schedule` | jobs, points in time, recurring schedules |
| `file_store`, `dependencies` | the live jobs of a log, its compaction, what waits for what |
| `priority`, `lines` | the order of waiting jobs, the waiting lines of a queue |
| `pools`, `rate_limiter`, `payloads` | workers and dispatchers, limits per minute, which payloads are pending |
| `queue`, `execution` | the engine of one log and how one job is run |
| `queue_laws`, `runs` | what the engine's steps keep, and what holds of a whole run |
| `sharded_queue` | an engine with one queue for each shard it holds |
| `dashboard`, `progress`, `http`, `json` | what the dashboard shows and how it is asked |
| `table`, `text` | an ordered table with string keys; text and numbers |

`app/` is ordinary Rust around it: log files and their locks, the asynchronous workers, webhooks
and the dashboard server. `tests/` runs the library.
