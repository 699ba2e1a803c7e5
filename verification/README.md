# aether_kernel

The kernel of Aether, a deterministic orchestration language for AI agents:
programs are DAGs of action nodes with declared intent, safety level, typed
outputs and validation rules.

## Layout

- `src/` — the verified library (Verus). Every decision of the kernel is here
  with its contract:
  - `ast`, `json`, `text` — the abstract syntax, the JSON model, text helpers;
  - `grammar` — the Aether grammar (a parsing expression grammar held as
    data) and its verified recognizer, from source text to a syntax tree;
  - `syntax` — from the syntax tree to a program;
  - `depends` — each action node's dependencies, found once its root is
    read: the ids of the nodes of the root producing what it reads;
  - `ledger` — the typed, append-only state ledger;
  - `registry` — the ASL registry of canonical intents;
  - `schedule`, `run` — dependency graph, level-by-level scheduling, run
    bookkeeping;
  - `eval` — VALIDATE / CONDITION expressions (steps on doubles are handed
    to the caller);
  - `executor`, `heal`, `guest`, `show` — the safety gate and the steps of a
    node before and after its guest code, the self-healing loop, guest
    scripts;
  - `short` — Aether-Short expansion;
  - `cli` — command-line and tool-protocol requests;
  - `laws` — properties that span several functions.
- `tests/` — tests of the library.
- `app/` — the program around it: reading decimal literals as doubles, guest processes,
  clocks, the Anthropic API, the command line, the MCP and REST servers.
