# wayland_http

A small Wayland compositor whose windows can be watched over HTTP:
`GET /window` lists the toplevel windows as JSON, `GET /window/{id}` describes
one of them, and the same path opened as a WebSocket streams the window's
frames (a JSON object with the frame's size, then its pixels).

Layout:

- `src/` is the verified library (Verus): the window map and its ids, the
  per-surface data (frame callbacks, stream watchers), the shell's counters
  and configures, the copying of shared-memory buffers, the pixel
  conversion, and the decisions of the HTTP and WebSocket interface
  (routing, id parsing, error statuses, message handling).
  The window map keeps its windows in a vector ordered by id rather than a
  hash map: vstd gives `HashMap::retain` (which drops the dead windows) no
  specification, and a hash map lists its entries in no fixed order; with a
  vector the removal is proved and the listing comes in id order.
- `app/` is the program around it: the Wayland server on smithay, the HTTP
  server on actix-web, and the logging.
- `tests/` runs the library on concrete values.
