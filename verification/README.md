# chatty

A small HTTP server made of a pipeline of middlewares, with its decision logic
formally verified.

- `src/` is the verified library: parsing a raw message into a request
  (`middleware::http_parsing`), basic authentication (`middleware::basic_authentication`,
  with Base64 and UTF-8 decoding in `codec`), claim-based authorization
  (`middleware::authorization`), routing (`middleware::route`), static files
  (`middleware::serve_dir`), the responses and their wire format (`context`), and
  building the pipeline (`pipeline`, `server`). Each middleware is split at the
  points where the original awaited something: the library decides, and says what
  it wants done next.
- `app/main.rs` is the program: the socket loop, the asynchronous middleware
  traits, awaiting the authentication service and route handlers, reading files,
  and printing log lines.
- `tests/` exercises the library on concrete values.
