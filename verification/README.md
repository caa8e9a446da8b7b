# ravyn

The decision logic of a download manager, written in Verus and proved
against its contracts: segment planning and durable coverage, fair
bandwidth scheduling, the event log with replay, request validation,
HTTP resume and redirect rules, archive pre-flight checks, post-processing
rules, duration histograms in the OpenMetrics format, and the step-by-step
state machines of a job's run and of an HTTP transfer.

- `src/` is the verified library. Each module states what its functions
  return over spec functions and views; the laws that span functions are
  public proof functions (`lemma_*`).
- `tests/` runs the library on concrete values.
- `app/` is the thin program around it: disk queries, framing on stdin,
  the float token bucket, the broadcast bus and the serde wire types.

Calls into outside crates (`url`, `percent-encoding`, `sha2`, `hex`,
`serde_json`) and into `std::path` stand behind small trusted wrappers
whose contracts state only what those crates document.
