# chers

A bitboard chess engine whose logic is verified with Verus.

- `src/common.rs`: the error type and the piece colour and kind enums.
- `src/common/bits.rs`: square masks, one-square and jump moves of masks,
  slides along a direction, and the lemmas that tie mask operations to board
  coordinates.
- `src/chess.rs`: the position (`BoardState`), pseudo-legal move generation
  for every piece, move application with promotion and en passant, and the
  game history (`Game`).
- `src/game_state.rs`: a simpler position type that moves pieces without
  bookkeeping.
- `src/view.rs`: piece symbols and the per-square content of board drawings.
- `app/main.rs`: the terminal program (colour output, timing, the material
  balance in floating point).
