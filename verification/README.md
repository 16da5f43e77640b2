# io_imap

I/O-free IMAP client coroutines, verified with Verus.

Every IMAP command exchange is a resumable state machine. It emits read
and write requests instead of performing I/O itself, so that the caller
owns the socket. Parsing and serialising the wire format is the work of
[imap-codec](https://docs.rs/imap-codec).

## Layout

- `src/` is the library. Each coroutine has a mathematical model of its
  state; the contract of its `resume` says how the state and the parser
  buffer change and what is returned for the bytes read. It leaves open
  the tags of new commands and, for IDLE, what the caller's flag says and
  how much time elapsed.
- `app/` is a light blocking client that runs the coroutines over any
  `Read + Write` stream.
- `tests/` runs the library, linked with imap-codec, on concrete
  exchanges.

## What is stated

- `send`: what is read in two goes leads to the same step as if it were
  read at once; the parts that a command is written in are the command;
  untagged lines that cannot be decoded are skipped.
- `rfc3501::mailbox`: every mailbox name survives the way to modified
  UTF-7 and back; so do all bytes the way to base64 and back.
- `rfc3501::fetch_stream`, `rfc3501::fetch_stream_batch`,
  `rfc3501::append_stream`: every octet of a message body is handed over
  once, in order, and to the message it belongs to.
- `rfc3501::raw`: commands are written and responses returned verbatim,
  every tag is awaited, and a tag that is refused occurs twice.
- `rfc3501::starttls`: what follows the tagged line is left over.
- `rfc5256`: a local sort is stable and determined by the criteria and
  what was fetched. It lists the sequence number of every fetched message
  once or, where every message has a UID, the UIDs, each as often as
  messages have it. The ids found are fetched in as few chunks as needed.
- `rfc2177`: an IDLE that is to stop says DONE, and ends well only once
  the server completed it.

What is trusted of imap-codec, imap-types, base64, chrono, rand and the
standard library is declared beside its use: functions marked
`external_body` and `assume_specification` items, each with a comment that
names the function and says what is claimed of it.
