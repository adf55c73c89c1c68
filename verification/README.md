# obd2_reader

A library for talking to ELM327-compatible OBD-II adapters, verified with Verus.

- `src/` is the verified library: command strings (`command`), the parsing of
  the adapter's hex replies (`response`), PID decoding (`pid`), the decisions
  of a session that do not touch the port — collecting and cleaning a reply,
  the initialisation sequence, the scan of supported PID ranges
  (`connection`) — and the character helpers they share (`text`).
- `app/` holds what Verus does not see: the serial port itself
  (`SerialConnection`, `ObdConnection`), the decoders that return `f32`, and the
  error type with its `thiserror` messages.
- `tests/` runs the library on concrete values.
