# shengji_mechanics

The rules of Shengji (Tractor / Finding Friends), written in Verus with their
contracts proved: the cards and decks, bidding, the four phases of a game
(setting up, drawing, exchanging the kitty, playing tricks), scoring and level
advancement, the trick formats with pairs, tractors and throws, and the text of
the game's messages.

Layout:

- `src/` — the verified library.
  - `types.rs`, `types/cards.rs`, `deck.rs`, `hands.rs`, `player.rs`: cards, trumps, decks and hands.
  - `ordered_card.rs`: the search for groups of adjacent tuples, and the weaker
    shapes that a player who cannot follow a format must play.
  - `trick.rs`, `trick/round.rs`: trick units, formats, legality of a play,
    and the play of a trick.
  - `bidding.rs`, `scoring.rs`, `settings.rs`, `message.rs`, `describe.rs`.
  - `game_state.rs` and `game_state/`: the phases and the moves between them;
    `interactive.rs`: a game that takes one action at a time.
- `tests/` — tests of the library, run against the compiled crate.
- `app/` — a small program that plays a game through the library.

Randomness (the shuffle) and URL parsing come from the `rand` and `url`
crates, behind small trusted wrappers whose contracts say what those crates
guarantee.
