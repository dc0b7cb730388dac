# stock_ticker

The logic of a small always-on-top desktop window that follows A-share quotes: reading the
real-time quote feed (GBK text, one `v_<code>="..."` line per stock), reading the intraday
series (JSON), deciding when the market is in session and what each polling round does, and
cleaning the watchlist. Every executable function in `src/` is verified with Verus against its
contract, except the few marked `#[verifier::external_body]`: those only call `serde_json`,
`encoding_rs`, `chrono` or `str::to_lowercase`, and their contracts are trusted, not proved.

- `src/text.rs`: whitespace, trimming, searching, splitting, and the number grammar of
  `str::parse::<f64>`, over ranges of characters.
- `src/quote.rs`: the quote feed's URL and reply.
- `src/json.rs`, `src/minute.rs`: the JSON model and the intraday series.
- `src/poll.rs`: local date-times, trading sessions and polling rounds.
- `src/watchlist.rs`, `src/controls.rs`: the watchlist and the window and tray commands.
- `app/`: the Tauri application around the library: HTTP, the settings store, the polling
  thread, the tray and the boss key, and the floating-point figures (change, change in
  percent, average price) that the window shows.
