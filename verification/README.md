# mainline_core

The decisions of a node of the Mainline DHT, written and verified in Verus.

- `src/` is the library. It holds no clock, socket or floating-point number: times are
  nanoseconds that the caller passes in, what arrived on the socket is an argument, and what is to
  be sent is a result.
  - `socket`, `inflight`, `messages`, `address`: which messages go out, which incoming ones are let
    through, which requests still wait for their response.
  - `dht_core`, `core_laws`, `query`, `routing`: which queries run, what is kept of finished ones,
    and which nodes are asked; with the laws that hold of all of it.
  - `signed_peers`, `chance`: the store of signed peers, and how a few of many are drawn at random.
  - `recency`, `id_map`, `id`, `sequences`: what a cache does to its entries, maps, identifiers and
    lemmas.
- `tests/` runs the library with its outside crates (`lru`, `getrandom`).
- `app/` is the ordinary code around it: the UDP socket, the clock, the smoothing of round trip
  times, and what is logged.
