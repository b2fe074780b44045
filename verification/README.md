# codex_agents

The rules by which a tree of coding agents works together, written in Rust and
verified with Verus: who may address whom, when a finished agent wakes its
parent, what a wait waits for, which hooks run, and what a dashboard of agents
shows.

- `src/` is the verified library. Every function states in its contract what it
  returns or changes; laws that relate several functions are public proof
  functions.
  - `agent`, `tree`, `live_agents`, `control`, `spawn_record`: agents, their
    paths, the tree of threads that they form, and the record of spawns.
  - `wake`, `notice`, `watch`: subscriptions of parents to the completions of
    their children, the telling of a completion, and the watchers.
  - `communication`, `tasks`, `message_tool`, `wait_tool`, `wait_call`: messages
    between agents and the tools that send them, close agents and wait for them.
  - `hooks`: finding hooks, picking those that run, and reading what they say.
  - `dashboard`, `notices`, `styled`, `wrapping`, `clock`: what is shown.
  - `daemon`, `desktop`, `process_group`, `marketplaces`, `skills_cwd`,
    `built_in_roles`, `version`: the surroundings.
  - `text`, `path_style`, `paths`, `sort`, `json`: text, paths in the styles of
    both families of systems, stable sorting and JSON text.
- `app/` is the program around it: sockets, terminals, processes and files.
- `tests/` runs the library on concrete values.
