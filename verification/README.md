# ares

A momentum fair-value-gap scalper for MetaTrader 5, with its trading logic
verified by Verus.

The library (`src/`) holds the logic with its contracts:

- `decimal` — the plain-value form of `rust_decimal` numbers and the
  contracts of the `rust_decimal` calls that do the arithmetic;
- `domain` — candles, sides, periods and deals;
- `detector` — momentum candles and the gaps they leave;
- `helpers` — EMA and ATR series, position sizing, fill prices, formatting;
- `backtest` — the walk-forward simulation, its report and summary, and the
  laws the run keeps (one position or setup at a time, drawdown bookkeeping,
  trade counts, the fate of a pending setup);
- `live` — the decisions of the live loop: the phase of a poll, the order to
  place, its size and expiry, what to do with a recorded pending order, the
  profit summary;
- `sse` — the position event stream: a reader that turns received chunks
  into events (the same events however the body is chunked) and their
  routing;
- `config` — settings read from the environment's texts;
- `mt5` — the messages exchanged with the MetaTrader 5 bridge;
- `text` — text comparison and trimming.

`app/` is the program around it: reading the environment, the HTTP client of
the bridge, Telegram notifications, the polling loop, file storage of the
loop's state, and printing.
