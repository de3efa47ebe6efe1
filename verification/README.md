# pmj

A terminal wargame of a march on Moscow: Wagner counters move and attack
along a point-to-point map while a Russian AI mobilizes, spends momentum,
deploys roadblocks and counter-attacks.

The rules engine is a Verus library (`src/`), verified against contracts
stated over mathematical models of the map, the counters, the
maneuver/combat track and the game state:

- `map`: locations, edges, adjacency and route tracing.
- `units`, `mct`: counters and the maneuver/combat track markers.
- `combat`: the contact result table and contact resolution.
- `game`: the game state, its well-formedness and its log.
- `movement`, `reach`, `hops`: movement costs, reachable locations, hop
  distances and routes.
- `contact`: Wagner contacts, their results and the advance after contact.
- `stacking`: one side per location, kept by contact results, advances
  and the Akhmat Tik Tok rule.
- `turn`, `russian`, `ai`: the turn sequence, the Russian phase and the
  Russian AI priority table.
- `input`: the key handler that drives the game screens.
- `save`: the state that a save file holds, and its restoration.
- `line`: the line drawing used for the map panel.
- `dice`: die rolls and the cup shuffle (the only calls into `rand`).

`app/` is the terminal program around it: the event loop, drawing with
ratatui, keyboard input with crossterm, and saving with serde_json.
`tests/` holds the tests of the library.
