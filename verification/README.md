# curl-rs

A small HTTP/1.1 client and a `curl`-like command-line program, with its library proved
correct by Verus.

## Layout

- `src/` — the verified library.
  - `text.rs`: bytes and text helpers (ASCII case, decimal numbers, trimming, UTF-8).
  - `buf.rs`: the byte buffers of the `bytes` crate, behind functions with contracts.
  - `http/headers.rs`: header names and values, and a header map whose names are compared
    without regard to ASCII case.
  - `http/parser.rs`: methods, status codes, versions, the request and response parsers and
    the functions that lay messages out as bytes.
  - `http/roundtrip.rs`: proofs that a message laid out by the library parses back to its
    parts.
  - `url.rs`: absolute `http`/`https` URLs: parsing, resolving references, writing out.
  - `request.rs`, `response.rs`: requests and responses and their builders.
  - `error.rs`, `net.rs`, `cli.rs`: errors, protocols and timeouts, command-line options.
  - `lib.rs`: the client. `Client::prepare` says what bytes to send to which host and port;
    `Client::on_response` says what a received message leads to: the final response, or the
    next URL of a redirect.
- `app/` — the program: reading the arguments, the network (resolving, connecting, writing,
  reading, with `tokio`), printing, and JSON through `serde_json`.
- `tests/` — tests of the library.

## Running

`cargo run -- -i http://example.com/` prints the status line, the headers and the body.
