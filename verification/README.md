# ctxone_hub

The decision-making core of the CTXone hub, written in Verus: every
function in `src/` carries a `requires`/`ensures` contract that Verus
proves, and the properties that span several calls are stated as public
`law_*` proof functions.

## Layout

- `src/` — the verified library, one module per concern:
  - `text` — character and string helpers with their specifications;
  - `memory`, `recall`, `pinned`, `requests` — what the memory tools write
    and what recall selects within a token budget;
  - `segments`, `starter`, `links` — topic arcs of a session, session
    starters, and plan/task links read from commit messages;
  - `plans`, `taint`, `reminders` — validation and decisions of the plan,
    taint and reminder tools;
  - `identity`, `hub`, `rate_limit`, `lens` — request identity, bearer auth,
    origins, rate-limit keys, and routing of the web UI;
  - `sessions` — the bounded LRU registry of per-session statistics;
  - `backup`, `lockfile`, `migrations` — snapshot names and pruning, the
    database lockfile, and schema migration steps;
  - `asd`, `asd_pool`, `help`, `project` — code-intelligence repos and their
    process pool, the feature manual, and project detection.
- `tests/` — ordinary Rust tests of the library.
- `app/` — the command line around the library: file, process and network
  I/O, JSON rendering, and the feature manual's data.

Calls into outside crates (`chrono`, `serde_json`, `lru`) and into `std`
where `vstd` gives no specification sit behind small trusted wrappers whose
doc comments say what their contracts assume.
