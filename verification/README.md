# Eel

A Hanabi bot built around H-Group conventions, with its game model, knowledge tracking
and convention techniques written in Verus and proved against their contracts.

## Layout

- `src/game/` — the rules: variants and card identities (`id = suit * 5 + rank - 1`;
  only five-card stacks and at most six suits are supported),
  clues, the table (hands newest first, stacks, discard pile, tokens, public empathy).
- `src/engine/knowledge/` — what each player knows: baseline narrowings and signals,
  hypothesis cohorts, team knowledge and the read-only player view used by the techs.
- `src/engine/convention/` — the H-Group core notions (chop, focus, finesse position,
  good touch) and every technique: what it proposes, which observed actions it explains,
  and what an observer may infer from them.
- `src/engine/knowledge_aware_game_state.rs` — the game state that applies actions and
  propagates convention knowledge to every seat.
- `src/engine/evaluator.rs` — the exact counts a heuristic evaluation weighs.
- `src/engine/self_play.rs` — a shuffled deck and a whole game played on it by a strategy
  (deal, turns, final round), with a termination proof and the trace of the game it played.
- `src/engine/greedy_action_selection_strategy.rs` — a strategy that follows the
  conventions greedily, highest priority first.
- `app/` — the command line, statistics and the floating-point evaluator around the library.
- `tests/` — scenario tests of the techniques, the knowledge model and the evaluation counts.

Bitmasks are `u64` sets: of card identities (`VariantCardsBitField`) or of deck positions
(`DeckCardsBitField`).
