# rsi

A library for processes that back a part of the registry: it decodes the requests that
the kernel queues on a source descriptor, and builds the frames that answer them. It is
written in Verus, and every function states in its contract what it returns.

- `src/source.rs`: laying out the hives for registration, and the steps of registering.
- `src/request.rs`: splitting a request frame, and one decoder for each kind of request.
- `src/response.rs`: one builder for each kind of reply.
- `src/entries.rs`, `src/completeness.rs`: the structures a caller fills in for a reply,
  the rules they keep, and the rule that a reply has one metadata record for each key it
  names.
- `src/frame.rs`, `src/records.rs`, `src/little_endian.rs`: the wire format, written and
  read.
- `src/guids.rs`: ordered sets of key GUIDs. They are sorted with `sort_unstable` of std,
  whose contract is trusted; nothing else in the library is.
- `src/laws.rs`: what holds of the library as a whole, such as that every reply is read
  back as what it was built from.
- `app/`: the C interface. It turns pointers into values, calls the kernel's parsers and
  tables, and makes the system calls.

The kernel's op-codes, status codes and request parsers are not part of the library: what
they say of a request comes in as an argument. Pointers of C callers are `Option`s of
slices, with `None` for NULL, and failures are named by their `errno`.
