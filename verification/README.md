# yp_quote

A stock quote streaming service. The server generates a round of quotes for
a fixed list of tickers every few seconds; a client connects over TCP, asks
for some tickers with a `STREAM <udp address> <tickers>` line, and receives
the matching quotes as datagrams on its UDP address while it keeps pinging
the stream.

- `src/` is the library, verified with Verus: the text handling of the
  wire formats (`text`), quotes and their selection (`quote`), quote
  generation (`quotes_generator`), the server's reading of command lines and
  its session decisions (`server`), the decisions of one quote stream
  (`broadcaster`), and the client's request and answer check (`client`).
- `app/` is the pair of programs around it: sockets, threads, channels,
  command-line parsing, the binary encoding of quotes, and the
  floating-point price (random draws, printing and reading).
- `tests/` exercises the library on concrete values.

Run the server with no argument and the client with `client` as the first
argument.
