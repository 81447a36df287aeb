# chess_pos_analyzer

Takes a FEN and analyses every legal move of the position with Stockfish,
printing a JSON report: the ranked lines of a search from the root, and for
each legal move its evaluations at depths 12, 16 and 20, the stability of those
evaluations, its tactical flags, and the checks, captures and promotions of its
main line.

The library under `src/` is verified with Verus:

- `text`: Unicode whitespace, splitting into words, trimming, prefixes, and
  integer parsing with the meaning of `str::parse`.
- `info`: the fields of an engine `info` line.
- `engine`: the UCI commands sent, the classification of output lines, and the
  choice of the lines that answer a search.
- `board`: chess rules through `shakmaty`, behind trusted wrappers; SAN lines,
  tactical flags and forcing counts. SAN of principal variations carries `+`
  and `#`.
- `report`: the analysis constants, scores seen from the side to move (the
  hero), and the exact part of the stability data (scores, their spread and
  rounded mean, the common prefix of the principal variations).
- `candidate`: evaluations, ranked root lines and candidate records.
- `session`: the whole conversation with the engine as a state machine from
  output line to next action.
- `paths`: the default location of the engine executable.

`app/` holds the command line, the engine process, the floating-point figures
of the report (pawns with two decimals, standard deviation, ratio) and
the JSON output.

Run with `--fen "<FEN>"` and, optionally, `--stockfish <path>`.
