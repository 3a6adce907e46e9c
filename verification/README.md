# multipart

A parser for `multipart` bodies that are read as they arrive, verified with Verus.

- `src/` is the parser. It does no I/O: each step takes an event and returns what is to be done.
  - `boundary`, `media`, `section`: the boundary, media types and header fields.
  - `buffer`, `search`: byte buffers and searching them.
  - `parser`: the parser as a mathematical object, over which all contracts are stated.
  - `inner`, `multipart`: the buffer with its reading steps, and the body with its parts.
  - `laws`, `session`, `message`: what holds of single steps, of a body that is read to its end,
    and of a whole message.
- `app/` drives the steps with a `futures` stream.
- `tests/` runs the parser on concrete bodies.
