# netproto

Verified building blocks of a handful of small network programs, written in Verus.

- `src/` is the library. Every function in it is verified against a contract:
  - `text`: decimal notation and searching for a pattern in a text;
  - `url`: taking a URL apart into scheme, host and path;
  - `request`, `message`: HTTP requests and the bytes that send them;
  - `response`: splitting an HTTP response into head and body;
  - `dns`, `dns_walk`: describing a DNS message line by line, and the laws of its name walk;
  - `query`: the parts of a DNS query taken from the command line;
  - `echo`: the replies of the upper-casing echo servers and their stop commands.
- `app/` holds the programs (`main.rs` dispatches on the first argument): an HTTP client,
  a DNS query builder, a resolver, a lister of network interfaces, and TCP and UDP echo
  clients and servers. They do the I/O and call the library for everything else.
- `tests/` runs the library on concrete inputs.
