# tienlen

The rules and data of Tiến Lên, the Vietnamese shedding card game, as a
library whose behaviour is stated in contracts and proved with Verus.

- `src/components/`: ranks, suits and cards; the combinations a player may
  put down (`cards.rs`); decks with their dealt and undealt piles; hands; the
  turn order of a round; the players and the table.
- `src/server.rs`: what the server accepts when a player plays, passes or
  runs out of time, and how it deals a game.
- `src/client.rs`: what a player's client decides: which cards are
  selected, what is sent when the player plays, where the other players are
  drawn.
- `src/messages/`, `src/channels.rs`: the messages of the game protocol and
  the error codes they carry.
- `app/`: the program around the library: settings from the environment,
  the stored (serde) form of cards and decks, and the countdowns, which are
  kept in floating point.
