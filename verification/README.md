# simrard

A causal, lease-mediated world simulation: pawns with decaying drives post needs on a
quest board, other pawns take those quests on, and every write to the shared world
(eating, drinking, resting, vegetation, insects, substrate) happens under a spatial
charter lease or is refused.

## Layout

- `src/` — the verified library (Verus).
  - `charter`, `lease`, `watchguard`: the spatial charter (mutually exclusive leases
    over chunks and component intents) and the audit of writes against leases.
  - `causal`, `dispatcher`, `time`: the causal event queue with propagation delays,
    event dispatch onto the quest board, and the simulation clocks.
  - `quests`, `ai`, `pawn`: quest boards, provider assignment, dispatcher bookkeeping,
    known recipes, the activity log and the run report.
  - `discovery`, `run`: where a recipe can be discovered and who teaches it to whom,
    and the headless run's stop and survival verdict.
  - `actions`, `movement`: the per-pawn eat, drink, rest and move action steps.
  - `world`, `tier4`, `hypergraph`: resource respawn, the reflex-insect layer's integer
    rules, and the hypergraph patches with their rewrites.
  - `transforms`, `table`, `text`: mod transform-stack validation and solidification.
- `tests/` — tests of the library on concrete values.
- `app/` — the runner: argument handling, the update loop, the floating-point layers
  (drives, fields, insect energy, substrate outputs, stability scores) and the report.

Run the runner with `--headless-test` for a full headless run, `--headless-substrate`
for the substrate layers alone (`--disable-tier10`, `--benchmark-seconds N` adjust a
run); without either it runs live in the terminal with transform hot reload from
`transforms/test.json`. Hypergraph rewrite rules are read from
`lib/hypergraph/default_rules.ron`.
