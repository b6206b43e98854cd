# umoja

An agent's persistent capabilities as a portable tool: sessions and their
subagents, a continual harness of lessons with reversible refinements, goals
with budgets, heartbeats and schedules, messaging within an agent family,
autonomous runs stopped by quality gates and limits, transcript compaction,
skills discovery and a persistent shell kernel.

## Layout

- `src/` — the library, verified with Verus. Every rule the tool applies is
  here, with a contract: parsing (intervals, cron expressions, schedule
  specs, skill frontmatter, `env -0` output), the state machines of goals,
  heartbeats, scheduled jobs, subagents and autonomous runs, the harness and
  its rollbacks, message routing, rendering of prompts and tables. Laws that
  relate several operations are public proof functions named `lemma_*`.
  Outside services (agent harnesses, kernels, process tables, skill
  catalogues) are traits in `src/ports.rs`; the calendar comes from `chrono`
  behind a few trusted wrappers in `src/time.rs`.
- `tests/` — tests of the library on concrete values.
- `app/` — the `pa` command line: argument parsing, JSON stores on disk,
  processes, the shell kernel and the clock. It loads what a decision needs,
  hands it to the library, and writes back what comes out.
