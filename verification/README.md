# tzif

A verified reader for TZif, the binary format of compiled time zones. It is
written in Rust and verified with Verus.

`TzifOwned::parse` turns bytes into a time zone, or says why they are not TZif
data. It does not panic, whatever the bytes. Two things are left to functions that
the caller passes in: the checksum that is kept with the time zone, and the meaning
of the POSIX TZ string in the footer of data of version 2 and later.

- `src/model.rs` says what TZif data means, as a function of its bytes.
- `src/parse.rs` parses it, part by part, and proves that it agrees.
- `src/header.rs` and `src/bytes.rs` hold the header, and big-endian integers.
- `src/zone.rs` holds the types that make up a time zone.
- `src/error.rs` and `src/text.rs` hold the errors and their messages.
- `src/laws.rs` proves what follows for all data: that truncated data is
  refused, that what follows the data is ignored, that every time zone is
  well-formed, and more.
- `app/lib.rs` lets errors be displayed.
