# kdbplus

A Rust interface to q/kdb+: the q object model `K`, its IPC wire format, the framing and
compression of messages, and the text that q prints for its objects. The library under `src/`
is verified with Verus; `app/` holds what talks to the world (sockets, TLS, files, the
environment, floating-point printing) and the bindings to q's C API.

## Layout

- `src/qtype.rs`, `src/qattribute.rs`, `src/q*_base.rs`: type indicators, attributes and the
  null and infinite values of q.
- `src/ipc/object.rs`: `K` and its mathematical model `QObject`; constructors.
- `src/ipc/getter.rs`, `list.rs`, `table.rs`: getters, casts, lengths, push/pop/insert/remove,
  dictionaries, tables and keyed tables.
- `src/ipc/serialize.rs`, `deserialize.rs`, `roundtrip.rs`: the q IPC encoding, its decoder and
  the proof that decoding an encoding gives the object back.
- `src/ipc/compression.rs`, `inflate_deflate.rs`: q's message compression and decompression,
  and the proof that decompressing a compressed message gives it back.
- `src/ipc/connection.rs`: message headers, queries, credentials, socket paths.
- `src/ipc/format.rs`, `text.rs`: the text of q objects as glyphs; reals, floats and datetimes
  stay bit patterns that `app/` prints in decimal.
- `src/ipc/calendar.rs`, `qtime.rs`: dates, timestamps and durations on integers; civil
  dates come from chrono, under contracts stated by the day-number formula.
- `src/ipc/laws.rs`: properties that relate several operations.
- `src/plugin.rs`: the decisions of the q C API bindings: how a row of a table or a simple
  list is taken apart into objects, and when an element can be enumerated.
- `app/`: `QStream` (async connections), `Display` wrappers, chrono conversions, the q C API.

Reals and floats are carried as the bit patterns of their `f32` and `f64`. Messages are
written in the byte order of the host, which their first byte names; the encoder, the
compressor and the decoder take the byte order as an argument.
