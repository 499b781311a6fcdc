# bc_constructor

Tools for back-testing trading strategies on candle data: picking the
symbols to trade, keeping sliding windows of candles, assembling indicator
inputs, running the order book of each trading step, collecting per-step
statistics, and writing and reading the files of a run.

The library under `src/` is written in Verus: each function carries a
contract, and the contracts and the laws stated as proof functions are
proved with Verus. Prices and amounts are IEEE-754 binary64 values
carried as their bit patterns (`u64`); the library classifies, compares,
moves and stores them, and leaves arithmetic on them to the caller.

Layout:

- `src/num_bits.rs`: NaN, normal numbers and the numeric order of bit patterns.
- `src/buffer.rs`: the sliding window of candles.
- `src/symbols.rs`: symbol selection by white and black lists of symbols and coins.
- `src/cli.rs`, `src/settings.rs`: the command line and the settings it overrides.
- `src/indicators.rs`: choosing, reordering and aligning indicator inputs,
  and assembling the input values of a signal.
- `src/symbol_filters.rs`: filters that decide whether a symbol is traded,
  and the inputs they read.
- `src/trade/`: orders, positions and the steps of a trade; order requests
  and order building; filing and checking pending orders; the trading step,
  which takes the amounts of each order from its caller; statistics.
- `src/file_wr.rs`: back-test directory names and the text layout of the
  data and value files, with their readers.
- `src/visual.rs`: the plotting script of a back-test.
- `app/`: the program around the library: the command line parser, the
  file system, and the arithmetic on amounts that the trading step is
  handed.
- `tests/`: tests of the library.

Not here: building indicators and signals from their settings, running
them over a run's candles, the exchange client and the whole-run drivers
need indicator, signal, exchange and statistics libraries that are not
available to this project. What those parts decide without them is here:
which columns and indicator values feed an input, in which order and cut
to which length (`indicators`), which symbols a run trades (`symbols`),
and how filters judge a symbol (`symbol_filters`).
