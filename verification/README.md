# Basket grid engine

A maker-only grid trading engine, as a verified library and a server around it.

An agent trades one instrument. It keeps a number of resting entries on either
side of the mid price, buys below for its long baskets and sells above for its
short ones, closes every entry with a take-profit one spread away, and
books the result in baskets. Each basket has a stop-loss of its own; a basket
that is stopped is done, and the engine ends with its last basket. A kill switch
closes everything when a limit is broken.

- `src/` is the library: amounts, baskets, the grid, risk, emergency exits,
  round-trip statistics, the bookkeeping of each exchange, saved agents and
  summaries. Every function states what it does and is proved; what is believed
  of outside crates stands at the small functions that call them. Prices and
  quantities are whole hundred-millionths. The library does no input or output:
  it says what to do next and takes in what came of it.
- `app/` is the server: HTTP, exchange connections, files and the loops that
  perform what an engine asks for.
- `tests/` runs the library on concrete values.
