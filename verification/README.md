# rust_chess_engine

A chess engine whose core is verified with Verus.

- `src/` is the verified library: the board and its FEN text, move generation
  and perft, the hand-crafted evaluation, move ordering, the transposition
  table, the searches (quiescence, alpha-beta, principal variation, aspiration
  windows, iterative deepening), the opening book, UCI command parsing, the PGN
  reader and the checks on Stockfish network files. The laws that span
  functions are public proof functions next to the code they speak of.
  The searches are stated for the hand-crafted evaluation; a search that is
  stopped early by its signal promises a legal move within the window, and a
  timed search promises the iterative-deepening result up to the depth it
  reached. `perft_divide` returns a `HashMap` keyed by `String`, whose contents
  vstd does not model; `perft_divide_list` states the same counts exactly.
- `app/` is the program around it: the UCI loop and its threads, file access,
  benchmarks, and the floating-point neural network with its training. The
  GPU evaluator and its benchmarks are not part of the project: the graphics
  crates they need are not available to it.
- `tests/` runs the library on concrete positions.
