# sixty_six

The rules of the two-player, 24-card game Sixty-Six (a match to seven game points),
a computer opponent, and the bookkeeping of web game rooms, as a Verus library
whose behaviour is stated in contracts and proved.

Layout:

- `src/cards.rs`: seats, suits, ranks, cards, the deck and trick comparison.
- `src/deal.rs`: one deal: dealing, legal plays, marriages, the trump
  exchange, closing the stock, tricks and drawing; `DealModel` is its
  mathematical model.
- `src/game.rs`: the match state machine (`MatchState::apply`) and its model.
- `src/laws.rs`: the laws of the game state proved over those models: every
  action keeps all 24 cards accounted for, a live deal always offers a legal
  play, match points never go down, and every accepted action brings the match
  closer to its end.
- `src/bot.rs`: what a player may see (`Observation`) and the computer's
  choice of action, proved to be legal.
- `src/room.rs`, `src/web.rs`, `src/text.rs`: room status, tokens, expiry,
  optimistic revision checks, form parsing and what the board shows.
- `src/rng.rs`: the seeded shuffles of the deck and of the computer's candidate
  cards, behind trusted wrappers over `rand` and `rand_chacha`. The thread-random
  draws for room codes and seat tokens are wrappers in `src/web.rs`.
- `tests/`: executable tests of the library.
- `app/`: the web server (HTTP routes, HTML views, SQLite storage), ordinary
  Rust around the library.

Dependencies: `inventory` and the `topcoat-core`, `topcoat-view`,
`topcoat-view-macro`, `topcoat-router`, `topcoat-router-macro` and
`topcoat-runtime` crates are named only because the code that Topcoat's macros
generate in `app/` refers to them by their own paths; the library does not use
them.
