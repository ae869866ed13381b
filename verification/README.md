# pi_agent

The core of an agent that works with a language model: it runs turns, calls
tools, keeps conversations in sessions, and compacts them when they grow long.
The logic is verified with Verus; each public function states what it returns or
changes, and public proof functions whose names begin with `law_` state what
holds of several of them together.

## Layout

- `src/` is the verified library.
  - `agent`, `agent_loop`, `agent_events`, `tool_calls`: the state of an agent,
    the loop of a run, and the calls of tools in an answer.
  - `session`: the tree of entries with its lanes, records and facts; queries,
    forks, the context of a branch, and the `jsonl` format of session files.
  - `reducer`, `lane_state`: checking the records of a lane, and rebuilding what
    an operation was doing.
  - `compaction`: estimates, cut points, and what a model is asked for a summary.
  - `tools`: reading, writing and editing files, and running commands; `utils`
    holds truncation and the capture of output.
  - `execution_env`, `command_run`: paths, streams, shells, and running a command.
  - `skills`, `prompt_templates`, `front_matter`: what is loaded from directories.
  - `proxy`, `events`, `agent_harness`, `telemetry`: the remaining surface.
  - `text`, `text_set`, `json`, `order`, `types`, `messages`, `harness_types`:
    what the others are built from.
- `tests/` runs the library on concrete values.
- `app/` is ordinary Rust around the library: files, processes, requests, tasks,
  and the types that are serialized.

Where the outside world decides, the library holds a state machine: it says what
to do next, `app/` does it and hands back what came of it.

Calls into other crates stand behind small functions marked
`#[verifier::external_body]`; the comment above each says what is believed of it.
