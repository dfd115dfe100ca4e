# io-email

I/O-free email coroutines over IMAP, JMAP and Gmail, with contracts proved by
Verus. Of Maildir there is the flag store, of m2dir the envelope search; SMTP
is only a backend that messages are routed to.

- `src/` is the library. The shared types (`address`, `date`, `envelope`,
  `flag`, `mailbox`, `search`, `watch`) are translated to and from each backend
  by the modules under `imap/`, `jmap/`, `gmail/`, `maildir/` and `m2dir/`. A
  coroutine is resumed with what was read, and yields what its driver has to
  do next; `coroutine` says what a resume is. `http` follows the framing of
  the replies that JMAP and Gmail exchanges read. `client` picks the backend
  for an operation.
- The `wire` modules hold most of what is not proved: the calls into the
  protocol crates, each with the contract that the rest of the library relies
  on. The others stand beside the code that needs them, and each has a doc
  comment that names the outside function.
- `tests/` drives the coroutines against canned server answers.
- `app/` runs the coroutines over blocking sockets and carries the serde copies
  of the shared types.
