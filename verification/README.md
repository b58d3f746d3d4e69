# minreq

The client side of HTTP, with its behaviour stated in contracts and proved by Verus.

- `src/` is the library. It opens no connection: where something has to be read, a function takes
  what was read last and says what is to be read next.
  - `connection` says what is sent for a request, and reads a response as a text.
  - `response` reads the head of a response, and loads its body at once or byte by byte.
  - `line`, `text` and `number` are what these are made of.
  - `outside` holds what is relied on of other crates and of the standard library.
  - `stream` states what comes out when a whole stream is read, and proves it.
- `app/` opens the connections, over TCP and TLS, and reads from them what the library asks for.
- `tests/` runs the library on examples.
