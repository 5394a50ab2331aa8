# stock_streamer

A stock quote service: a generator keeps one quote per ticker and moves them
at random, a server streams them over UDP to clients that ask for them over
TCP and keep their stream alive with UDP pings, and a client asks for a
stream and prints what arrives.

The library in `src/` is verified with Verus:

- `text`: white space, trimming, splitting, joining and decimal numbers, each
  with its specification.
- `command`: the TCP protocol's commands and their parser.
- `client`: the ticker list a user gives and the stream command built from it.
- `quote`: quotes and their wire format `ticker|price|volume|timestamp`.
- `generator`: the quote book and its random moves.
- `session`: how the server answers a line, the registry of clients kept
  alive by pings (a client is alive for five seconds after it was last heard
  from), and one round of a stream.
- `errors`: the error types.
- `laws`: properties that span several of the above.

`app/` holds the two programs (`generator` and `streamer` subcommands): the
sockets, threads, files, command line, and the arithmetic and formatting of
the floating-point prices. The library carries a price as its bit pattern
and checks the syntax of a price's text, but leaves turning the number into
text, and text into the number, to `app/` and other callers.
