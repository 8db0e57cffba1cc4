# nativeext

A browser native-messaging host. The browser sends length-prefixed UTF-8 JSON
requests on stdin (`Ping`, `GetTextTopics`); the host answers on stdout in the
same framing, and also forwards `key=value` configuration updates that a local
ZeroMQ publisher sends.

Layout:

- `src/` — the verified library (Verus): message types (`message`), wire
  framing with the machine-order length header (`framing`), request handling
  (`process`), config-message decoding (`config`), text-topic extraction
  (`topics`) and character helpers (`text`).
- `app/` — the executable around it: stdin/stdout, JSON via serde, the ZeroMQ
  subscriber, the tokio tasks and channel, and logging.
- `tests/` — tests of the library on concrete values.
