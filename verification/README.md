# hookline

A small HTTP notification gateway: requests to configured webhook paths are
checked (path, token, title and message) and turned into notifications that
are sent to e-mail and Discord channels.

- `src/` is the verified library (Verus): URL decoding, query parsing, JSON
  field extraction, request decisions, configuration validation, channel
  planning, message composition, and the laws that relate them.
- `app/` is the program around it: configuration file reading, the HTTP
  server, and the network clients that deliver notifications.
- `tests/` runs the library on concrete inputs.
