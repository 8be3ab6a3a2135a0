# solver

A verified solver library for a grid puzzle in which players chase rats across a board of
walls, webs, planks, explosives and numbered triggers. The library decides; the game itself
(stepping a board by one turn) lives in the game crate, which the command-line front end
drives.

## Layout

- `src/` — the library, written and proved with Verus.
  - Board model and scans: `model`, `cells`, `scan`, `features`, `geometry`, `reach`,
    `reachability`, `nearest`, `queries`, `components`, `minimum`.
  - Text: `text`, `parse`, `fields`, `tokens`, `actions`, `keys`, `event_keys`,
    `event_kind`, `bucket_keys`.
  - Scores: `heuristics`, `rectangle`, `lure`, `goals`, `goal_terms`, `goal_scores`,
    `goal_progress`, `constraints`, `novelty`, `facts`.
  - Searches, each as a sequence of decisions (what to expand next, what to do with each
    board a turn reaches): `plain_search`, `lookup_search`, `branch_search`,
    `event_search`, `event_successors`, `lure_search`, `guided`, `beam_search`,
    `novelty_search`, `segment_search`, `segment_branches`, `macro_search`, `fess_run`,
    `route_beam`, `pocket`, `detour_search`; their common parts are `open_list`,
    `search_tree`, `beam`, `chain`, `event_select`, `fess_select`, `placements`.
  - Chains of searches, each as a sequence of decisions (which branch to search from
    next, with which goal, and what becomes of the boards found): `chain_search` (branch
    searches towards triggers or rat drops) and `walk_chain` (walks to triggers).
- `tests/` — tests of the library on concrete boards.
- `app/` — the command line: reads a level, plays turns with the game crate, runs the
  searches of the library turn by turn, keeps time limits, and prints results and JSON
  reports.

Every search of the library is driven from outside: the driver asks `next()` for a node
to expand, plays each turn from it with the game, and hands the board reached to
`offer(..)`, whose contract states exactly what the search keeps, drops or returns.
