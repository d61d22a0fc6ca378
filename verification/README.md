# Glass

Glass is a long-running personal companion that talks with its owner through direct
messages. The agent itself is a child process; Glass decides when to run it, what to ask
it, what to send of what it says, and what to write down.

## Layout

- `src/`: the library, verified with Verus. Every function states what it returns or
  changes, and every decision of the daemon is made here.
  - `bus`, `chunk`, `discord`: the conversation with the owner.
  - `cron`, `cron_view`, `poller`: scheduled prompts.
  - `loom`, `json`, `invocation_log`: the agent's event stream and the record of a run.
  - `orchestrator_socket`, `dm_log`: requests of the agent's tools, and the record of
    messages.
  - `events`, `compaction`, `turn`, `pi`, `memory`, `models`: conversations with a history.
  - `mcp`, `spike`, `spike_setup`: a small tool server and what a session shows of it.
  - `cli`, `config`, `state`: the program.
  - `text`, `time`, `ids`, `paths`, `jsonl`, `failure`: what the others are made of.
- `app/`: the daemon around the library. It reads and writes files, sockets and processes,
  and performs the actions that the library returns.
- `tests/`: tests of the library.

## How the daemon works

Each loop of the daemon is a state machine in the library. The daemon hands it an event and
performs the actions that come back, in order: `bus::BotLoop` for the conversation,
`poller::Poller` for scheduled prompts, `loom::Renderer` for the agent's event stream,
`orchestrator_socket::Coalescer` for messages that tools send, and `turn::TurnEngine` for
conversations with a history.

Moments, JSON values and cron schedules come from `chrono`, `serde_json` and `cron`. What
the library relies on of these crates is written above each function that calls them.
