# workgraph

Task coordination for humans and AI agents: a graph of tasks that block one
another, the operations that move tasks through their states, the analyses
that report on the graph's health, and the agency of roles, motivations and
agents that work on it.

## Layout

- `src/` is the library, written in Verus. Every function states its
  behaviour in `requires`/`ensures` over mathematical models (`Seq`, `Set`,
  `Map`, integers, and a view of each type), and Verus proves it.
  - `graph`: tasks, resources and the graph, with their views.
  - `ops`, `add`, `edit`, `lists`, `links`: the operations on tasks (claim,
    unclaim, done, approve, abandon, artifacts, assignment, adding and
    editing) and the laws that relate them.
  - `check`, `deps`, `analyze`, `bottlenecks`, `aging`, `critical_path`,
    `coordinate`, `context`, `archive`, `upstream`: checks and analyses of the
    graph.
  - `agency`, `lineage`, `stats`, `trust`, `merge`, `agent_crud`: roles,
    motivations, agents, content-hash ids, prompts, ancestry, new agents'
    ids and the lineage report, and evaluation coverage.
  - `agent`, `agents`, `coordinator`, `dead_agents`: the decisions of the
    autonomous agent loop and of the coordinator.
  - `report`: the lines of the health report.
  - `parse`, `text`, `fmt`, `order`, `time`, `config`, `messages`: parsing,
    text, ordering, the configuration update and the user-facing messages.
- `app/` is ordinary Rust around the library: the files on disk, the clock,
  processes, serialisation, printing, and the few computations on floating
  point scores and hour estimates.
- `tests/` runs the library on concrete values.

## Trusted boundary

The library calls out to `chrono` (timestamps), `sha2` (content hashes) and
a few `std` functions (the system clock among them) that Verus has no specification for. Each such call
sits in one small function marked `#[verifier::external_body]` whose doc
comment says what its contract claims of the outside code; everything else
in `src/` is proved.
