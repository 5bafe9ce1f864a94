# warp_cors

A proxy server that enables CORS for the proxied request. The path of a
request names the URL to proxy (`http` or `https` only); preflight requests
are answered allowing the requested method and headers; every answer allows
the requesting origin (or `*`) and credentials, and a proxied response
exposes all of its headers.

- `src/` is the library, verified with Verus: routing (`routes`, `path`),
  the rewriting of forwarded requests (`request`), the CORS headers (`cors`,
  `client`), failures (`error`), settings (`config`), text helpers (`text`),
  the models of `http` header maps and `url` URLs (`headers`, `target_url`),
  and properties spanning them (`laws`).
- `app/` is the server around it: command line, warp filters, the outgoing
  HTTP client and signal handling.
- `tests/` runs the library on concrete requests.
