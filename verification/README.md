# ohos_server

A multi-site HTTP server (static files, URL rewriting, reverse proxy and load
balancing, CGI, CORS, rate limiting, sessions, access logs) whose decisions are
written as a Verus library with their contracts proved.

## Layout

- `src/` — the verified library. Each module states its behaviour in
  `requires`/`ensures` over spec functions, and the properties that relate
  several calls stand as public proof functions named `law_*`.
  - `config`, `cli`, `init` — settings, sizes and durations, defaults, the
    command line and the data directory.
  - `handler` — what a request goes through: refused methods and sizes, hosts,
    rewrites, location routing, forbidden paths, CORS, CGI environment and
    output, compression, directory listings, tunnels; `SiteState` holds the
    per-site state (rate limiter, sessions, file cache, load balancers).
  - `rewrite`, `rate_limiter`, `session`, `session_shm`, `load_balancer`,
    `cache`, `proxy`, `server`, `logger` — the components a site uses.
  - `auth`, `manage` — the administrator account and the management API's
    decisions.
  - `text`, `paths`, `strmap`, `clock`, `files`, `banner` — text and path
    helpers, a string-keyed map, time and randomness, MIME types and dates,
    and the start-up screen.
- `tests/` — tests of the library.
- `app/` — the program: process management, listeners, TLS, HTTP/1.1, HTTP/2
  and HTTP/3 plumbing, file and process I/O, and the serde forms of the
  configuration. It hands the library plain values and acts on what it returns.
