# gambling_bot

A Discord casino bot (roulette, Texas hold'em poker against players or a
bot, per-guild balances) whose game rules are a library verified with Verus.

## Layout

- `src/` — the verified library. Every function carries a `requires` /
  `ensures` contract over spec functions and views, and the laws of the
  games stand as public proof functions (`lemma_*`).
  - `commands/poker/` — the table state (`session`), the betting flow and
    showdown (`flow`), hand ranking (`hand_evaluator`), the bot's choices
    (`bot`), button ids (`components`) and the table's texts (`ui`).
  - `commands/roulette/`, `utils/roulette.rs` — bet kinds, odds, the wheel
    and settlement.
  - `commands/money/`, `utils/money.rs` — who may change whose balance,
    reset confirmations, and balance arithmetic.
  - `utils/cleanup.rs` — the refunds owed at start-up for stale games.
  - `redis/`, `sql/` — the keys and records the stores hold.
  - `secrets.rs`, `text.rs` — the settings file, and text helpers with exact
    specifications (decimal formatting and parsing, splitting, lines, trim).
- `app/` — the bot itself: Discord, Redis and MySQL I/O, timers, and the
  serde copy of the table state. It calls the library for every decision.
- `tests/` — tests of the library on concrete values.

The randomness comes from the `rand` crate through three small trusted
wrappers (`shuffle_cards`, `random_byte`, `roll_percent`); upper-casing
comes from `str::to_uppercase` through `to_upper`.
