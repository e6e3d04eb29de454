# fms_dispatch

The dispatch core of an airport ground-handling service, written in Verus:
the functions in `src/` carry `requires`/`ensures` contracts proved by the
verifier, apart from a few small wrappers around `chrono`, `sha2`, `hex` and
`ulid`, whose contracts are trusted and stated in their doc comments.

- `src/` — the verified library: order lifecycle rules (`lifecycle`,
  `slots`, `order_create`, `preparation`, `publication`,
  `publication_resources`, `batch_publication`), flight-driven order generation (`flight_context`,
  `generation`, `generation_requests`, `rebase`), crew and equipment
  planning (`crew`, `equipment`, `window`, `window_candidates`,
  `window_crew`, `window_run`), conflict
  checking and replanning (`validation`, `eta_enrichment`, `replan`,
  `overrun`, `overrun_alerts`, `overrun_service`), safety checklists,
  follow-ups, mobile sync, automatic dispatch, and the domain-action
  executor (`actions`, `action_effects`, `executor`). The public proof
  functions named `law_*` state properties that hold across calls.
- `app/` — ordinary Rust around the library: repository traits, JSON
  conversions, the order-generation, validation, reporting and replanning
  flows that read and write through those repositories, the check-in
  flow, the overrun scanner loop and the JSON form of the alerts it
  broadcasts, plus the floating-point distance checks and the ranking of
  equipment by distance. The remaining order flows (creation, the other
  mobile commands, automatic dispatch, approved actions, batch publication)
  are decided by functions of `src/` that take what the repositories
  returned; no repository-backed caller for them is included here.
- `tests/` — tests run against the compiled library.
