# greport

A library for GitHub repository analytics, verified with Verus: the data
models, the metrics over issues and pull requests (counts, medians, age
distribution, velocity, SLA compliance), burndown and burnup reports, release
notes, the configuration rules, the GraphQL response conversion, the client
registry, and the SQL text of the database queries. Each public function of
`src/` states its result in its contract; the `law_*` proof functions state
properties that span calls.

Layout:

- `src/` — the verified library. Instants are whole seconds since the Unix
  epoch; where a result depends on the clock, a function taking `now` carries
  the exact contract and a companion reads the clock. The companion fails
  with `ClockUnavailable` when the clock reads before the epoch or beyond the
  representable range; otherwise its result is that of the function taking
  `now` at some instant from the epoch on, and it owes a result wherever no
  such instant could make the computation leave the representable range.
- `tests/` — tests of the library on concrete values.
- `app/` — the application around it: reading the configuration file and the
  environment, the HTTP clients (REST through octocrab, GraphQL through
  reqwest), the PostgreSQL queries, and the floating-point summaries
  (averages, percentages, backoff).
