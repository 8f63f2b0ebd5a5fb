# backtest

A backtesting engine for trading strategies, verified with Verus. It replays
historical candles through strategies, simulates fills and fees, and reports
the trades and the statistics of each strategy on each market.

- `src/` is the library. All of it is verified, but for the two calls named
  under Assumptions.
  - `number`, `text`, `clock`: numbers held by their bits, texts, times as texts
  - `interval`, `candle`, `store`: candle intervals, candles and their paging,
    the candles of each market
  - `strategy`, `talk`: what strategies are asked and what they answer
  - `position`, `exits`, `cell`: positions, exits at a price level, and the run
    of one strategy over one market's candles
  - `stats`, `summary`, `source`, `config`, `engine`: records, totals and the
    engine itself
  - `laws`: what holds of every run, whatever the prices, the strategy and the
    arithmetic
- `app/` is ordinary Rust around it: floating-point arithmetic, fetching candles
  from Hyperliquid, JSON records, output files and the printed summary.
- `tests/` runs the library on concrete values.

## Assumptions

The library trusts two calls: `str::to_lowercase` of the standard library, and
chrono's conversion of milliseconds to an RFC 3339 text. Floating-point
arithmetic and the reading of decimal texts are passed in by the caller; the
contracts hold for whatever arithmetic that is.
