# chess_kit

Building blocks for a chess engine, with their behaviour stated as contracts
and proved:

- `collections`: a fixed-capacity vector (`FixedArray`), a fixed-capacity
  stack of copyable items (`Stack`), and a bucketed hash map with
  priority-based eviction (`Bucket`, `BucketMap`).
- `attack`: attack boards of kings, knights and pawns, sliding attacks by
  hyperbola quintessence, and magic-indexed rook and bishop tables.
- `uci`: parsing of the Universal Chess Interface commands the engine
  understands (`Command`, `PositionCommand`, `SearchLimits`, `UciMove`), the
  text of its responses, the bridge from `go` constraints to engine search
  limits (`UciAdapter`), and the decisions of the interactive terminal game.
- `engine`: protocol-neutral engine types (`EngineError`, `SearchLimits`,
  `SearchOutcome`, …) and the bookkeeping of searches run on a worker
  (`SearchTaskId`, `SearchTasks`).

`src/` is the library. `app/` holds the input and output around it: the UCI
command loop and the terminal game loop. `tests/` runs the library on
concrete inputs.
