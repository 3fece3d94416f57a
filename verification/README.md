# jybot-rs

The management side of a Polymarket BTC 5-minute up/down trading bot, with
its logic verified by Verus.

- `src/` is the verified library:
  - `text`, `decimal`: characters, trimming, lines, decimal numerals;
  - `paths`: the single data directory (`JYBOT_HOME` or `~/.jybot`) and its files;
  - `envfile`: reading `KEY=value` pairs from `.env` and setting a key,
    with the laws that a read gives back what was set and that other keys
    are left alone;
  - `service`: the PID file (written and read back), service status, log tail;
  - `panel`: the editable field tables, value masking and checking, the
    safety locks and the menu decisions;
  - `backtest`: UTC timestamps, the paged history walk, ordering of candles,
    the 5-minute windows and the per-signal tally.
- `app/` holds what does I/O around it: the data directory on disk, the
  detached service process, the terminal panel, the HTTP history download and
  the floating-point signals of the backtest.
- `tests/` exercises the library on concrete values.
