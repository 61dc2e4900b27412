# wireline

The logic of a terminal manager, verified with Verus: a ZMODEM engine that
lives on the byte stream of a pty, the routing of what it causes, and the
choice of programs and settings.

- `src/` is the verified library. `engine.rs` holds the engine; what it does is
  stated in `protocol.rs`. `laws/` and `round_trip.rs` hold what is proved of
  sessions as a whole: what one side sends is what the other stores, terminal
  bytes are shown unchanged, damaged data are refused, five cancel characters
  end a transfer wherever they come, and it does not matter in what pieces the
  line hands over headers, offers and data.
- `tests/` runs the library on concrete sessions.
- `app/` is the desktop application around it: ptys, files, threads, and the
  commands of the user interface.

The engine does no I/O. It is fed bytes and hands out events; files are opened,
read and written by the application, which tells the engine the outcome.

Trusted are one function of the standard library (lossy UTF-8 decoding) and
three of `portable-pty` that put a command together.
