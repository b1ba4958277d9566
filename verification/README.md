# herdr

The decisions behind a terminal workspace server that clients pair with, connect
to and drive over an api, verified with Verus.

- `src/` is the library. It holds no I/O: what the server does is a sequence of
  steps, each of which takes what was observed and says what to do next. Every
  function states what it returns, and the laws that relate several functions
  stand beside them as public proof functions named `law_..`.
- `tests/` runs the library on concrete values, with the outside crates linked.
- `app/` is the I/O around the library: sockets, files, processes, JSON.

Only unix systems are covered: paths are texts with slashes, as a unix system
reads them, and a user has a number.

What is taken on trust is said where it is used: the few functions marked
`external_body`, and the specifications of functions of `std` and of other
crates, each with a comment on what is claimed of it.
