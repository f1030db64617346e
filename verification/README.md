# A*-routing heuristics for contact graphs, verified with Verus

The library predicts, for a stage of a route under construction in a
delay-tolerant network, the arrival time and hop count at the destination
(`heuristic`), and orders route stages by the resulting metrics (`distance`).

- `types`, `route_stage`, `multigraph`: the data the heuristics read. Times,
  durations and distances are integers; their greatest value means
  "unreachable", and additions on them saturate.
- `pathfinding`: extending a stage by one hop over the contacts to a receiver.
- `distance`: the geographical and the heuristic SABR orderings of stages.
- `heuristic`: the `Heuristic` trait and its implementations `Zero`, `Owlt`,
  `OwltCurr`, `KLookAhead` and `KLookAheadMin`.

Run the verifier on `src/lib.rs`; the tests under `tests/` exercise the
compiled library.
