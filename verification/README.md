# crypto_collector

Collects crypto-currency quotes every half-minute and stores them in SQLite.

- `src/` is the verified library: the decimal text of the integer columns and
  its parse (`decimal`), one quote and its row (`record`), the frame of one
  moment keyed by pair (`frame`), the settings of the rolling window
  (`config`), the rolling window of rows per pair (`queue`), the statements
  that store a frame (`storage`), and the operator's notices (`notify`).
- `app/` is the program around it: the request to the price source, the JSON
  of its answer and of the settings file, the database, and the main loop.
- `tests/` runs the library on concrete frames.
