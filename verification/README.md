# liars_dice

A terminal game of liar's dice against computer players, with its rules and
the computer players' strategy verified with Verus.

- `src/guess.rs`: bids and the order in which they rise; the least count of a raise.
- `src/player.rs`: players, counting a face on the table, finding the last bidder, losing a die.
- `src/strategy.rs`: the computer players' answer to a bid, from explicit random draws.
- `src/input.rs`: reading the person's answers.
- `src/render.rs`: the picture of a hand of dice, as rows of cells.
- `src/game.rs`: seating the players, counting a roll, playing a turn of a round, settling a challenge; the table keeps its counts.
- `src/random.rs`: the calls into the `rand` crate.
- `app/main.rs`: the terminal loop around the library.
