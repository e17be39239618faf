# volto

The protocol core of a MASQUE proxy server, verified with Verus, and the server
around it.

- `src/` is the library. Everything in it is a function of what has arrived so
  far: frames, QPACK, requests, datagrams, the connection's critical streams, the
  destination policy, the lookup budget, the connection roster and what a log line
  may carry. Nothing in it reads a socket or waits.
- `tests/` runs the library from outside.
- `app/` is the server: sockets, timers, locks and signals around the library's
  decisions.

## How it is laid out

| Module | What it decides |
| --- | --- |
| `h3::frame` | what a stream's bytes say as HTTP/3 frames |
| `h3::qpack`, `h3::huffman` | field sections on the wire |
| `h3::message` | names, values, methods and statuses |
| `h3::stream` | what a request is, and what becomes of its stream |
| `h3::connection` | the critical streams, GOAWAY, and where a datagram goes |
| `h3::error` | codes, violations, and how a connection ended |
| `datagram` | HTTP Datagrams and variable-length integers |
| `policy`, `ip` | which destinations may be reached |
| `net` | the order of addresses, and how many lookups may run |
| `quic` | transport parameters, who holds a slot, and reloads |
| `logfmt`, `journal`, `text` | what a log line says |
| `buf` | the byte buffers of the `bytes` crate |

A function's contract says what it returns as a spec function of its arguments.
What holds across functions stands in public proof functions: beside the types it
is about, or in the modules whose names end in `_laws`.

## What is trusted

The buffers of `bytes` and a few functions of `std` and `quinn` are called through
small wrappers whose contracts are believed: see `buf`, `h3::quic_varint`,
`h3::message::utf8`, `logfmt::lossy` and `logfmt::quoted`.
