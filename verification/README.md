# RetroTLS

An HTTP to HTTPS bridge proxy: it listens for plain HTTP requests and forwards them to HTTPS
upstreams. What it decides is a library verified with Verus; what it does with sockets, files and
signals is the program around it.

- `src/` is the library.
  - `text`, `net`, `uri`, `headers`: text, socket addresses, URIs and header maps as plain values,
    and the calls into the `http` crate.
  - `error`: the errors, their HTTP status and their words.
  - `config`: the configuration of the pooled proxy and what makes it acceptable.
  - `forwarding`: hop-by-hop headers, and the URL of a request under that of its upstream.
  - `proxy`: the pooled proxy, from a request to the answer to it.
  - `bridge`: the upstreams of the bridge, and the phases in which it forwards a request.
  - `daemon`: the command line, the process ID, starting, serving and stopping.
  - `logging`: the lines of the log.
  - `filter`: the filter of the log, and the texts that are taken as one.
- `tests/` runs the library with the `http`, `rustls`, `chrono` and `tracing-subscriber` crates.
- `app/` is the program.

Proof functions whose names begin with `law_` state what holds of the library as a whole.
