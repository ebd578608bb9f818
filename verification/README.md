# harnx-runtime

The runtime of sessions that live in the log of a message broker: clients append prompts, workers
answer them, and everybody agrees on what the log says.

## Layout

- `src/` is the library. It decides; it neither reads nor writes anything. Every function states
  in its contract what it returns, and Verus proves it.
  - `session_log`, `mutations`, `window`, `session_reconstruct`: the entries of a log, what edits
    and rewinds make of them, and where a turn stands.
  - `completion`, `replay`, `turn`, `poller`, `watchdog`: how a client follows a turn to its end,
    and what it shows meanwhile.
  - `interrupt`, `compaction_request`, `hitl`: requests that are written into the log.
  - `execution`, `execution_fence`, `projection`, `recovery`: who may work on a session, and how
    what was decided gets into its log.
  - `nats_*`, `local_orchestrator`: leases, hooks, attachments, the shared broker and its worker.
  - `config/`: the settings of a frontend and the session in its memory.
- `app/` carries out what the library decides: the broker, files, processes and clocks.
- `tests/` runs the library on given values.

Laws that relate several functions are public proof functions whose names start with `law_`.
