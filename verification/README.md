# pasta_p2p

A terminal program that sends files between two peers, as a verified library with a thin
program around it.

- `src/` is the library. Every function in it but the wrappers around other crates is checked by
  Verus against its contract.
  - `text`, `addr`, `path`, `order`, `double`: texts, addresses, paths, sorting and numbers of
    double precision.
  - `profiles`, `cli`: saved connections and the command line.
  - `net`: the wire formats, finding the public endpoint, the stream transport (`transfer`,
    `receiving`, `names`), the packet transport (`datagram`, `packet_messages`,
    `packet_manager`) and the journal of unfinished transfers.
  - `ui`: the screens, their events and what is drawn.
- `app/` is the program: sockets, files, tasks, clipboard and terminal. It asks the library what
  to do and does it.
- `tests/` runs the library on concrete values.

The names of laws begin with `law_`. What the library takes on trust from other crates stands in
the wrappers, functions marked `external_body`, or in an `assume_specification`, each with a
comment that says what is claimed.
