# qhttp

The core of an HTTP/1.1 and HTTP/2 server, written in Rust and verified with Verus.

All limits and timeouts of the server stand in a single `Config`. The core decides what to do with
the bytes, frames and events of a connection; it never reads, writes or waits itself.

## Layout

- `src/` is the verified library.
  - `buffer`, `bytes`, `number`, `text`: buffers and elementary conversions.
  - `parse`, `message`, `response`, `connection`: the heads of requests and responses, and how an
    HTTP/1 connection reads requests and passes on their bodies.
  - `body`, `chunked`: the readers and writers of bodies.
  - `http2`: frames, settings, streams, flow control and the state of an HTTP/2 connection.
  - `server`, `listener`, `config`: counting and limiting connections, and the configuration.
  - `util`: byte ranges, path templates and the decisions of a file server.
  - `foreign`: what is taken from other crates, with the contracts that the proofs rely on.
- `app/` is the asynchronous shell: sockets, tasks, timers and files.
- `tests/` runs the library on concrete values.

Functions named `law_..` state what holds of the library as a whole.
