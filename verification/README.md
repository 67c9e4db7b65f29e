# moneybot

The logic of a Discord economy bot (`!work`, `!gamble`, `!check`, `!top`,
`!transfer`, `!github`), verified with Verus.

- `src/` is the verified library:
  - `library/botdb.rs`: a guild's money table (`MoneyDatabase`) viewed as a map from
    user id to balance, with credit, debit (refused with the shortfall when the balance
    is too small), reads, the "richest first" ranking, and the list of writes that
    brings the stored table up to date; `MoneyError`.
  - `library/cmdutil.rs`: per-user command cooldowns.
  - `library/text.rs`: decimal rendering and line joining behind every reply.
  - `library/keyed.rs`: lists of `(key, value)` rows read as maps.
  - `library/random.rs`: the draws from `rand` that work and gamble use.
  - `commands/`: the current commands; `bot_check.rs`, `bot_gamble.rs`,
    `bot_work.rs`, `bot_top10.rs` at the root: their first versions.
- `app/` is the bot itself: Discord plumbing (poise/serenity), the SQLite storage
  (rusqlite) that loads a guild's table into `MoneyDatabase` and writes back what
  changed, and the clock for cooldowns.
- `tests/` runs the library on concrete values.
