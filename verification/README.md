# orbit-state

The state layer of the orbit workflow: specs with acceptance criteria, cards,
choices, memories, sessions, append-only task streams, skill invocations and
routines, all kept as files under `.orbit/` and driven through a small set of
typed verbs (`spec.close`, `task.ready`, `card.tree`, `audit.drift`, ...).

## Layout

- `src/` — the library, verified with Verus. Each verb's decisions live here
  as functions from the values that were read to the values to write or
  return, with `requires`/`ensures` contracts over sequence and string
  models:
  - `schema.rs` — the entities and their views;
  - `verbs/` — one module per verb family (specs, acceptance criteria,
    close gates, tasks, memories, cards and their tree and graph, audits,
    sessions, skills, topology);
  - `routine.rs`, `chains.rs` — reconstruction of skill chains per session
    and detection of recurring chains;
  - `verify.rs` — the round-trip hygiene verdict;
  - `text.rs`, `order.rs` — strings and stable sorting with their proofs;
  - `dates.rs`, `patterns.rs`, `yaml.rs` — the calls into `time`, `regex`
    and `serde_yaml`, each behind a small trusted wrapper whose contract
    names what the call returns.
- `tests/` — tests on concrete values for each verb and each law.
- `app/` — the unverified shell: paths under `.orbit/`, reading and atomic
  writing of YAML and JSONL, clocks and ids, serde copies of the entities,
  the JSON envelope and the `execute` dispatcher that feeds the library.
