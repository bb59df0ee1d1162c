# Exchange

A minimal, configuration-driven reverse proxy. It reads `proxy.toml` at startup and
forwards incoming requests to the upstream services that its routes name.

- `src/` is the library, verified with Verus: URI checking (`uri_serde`), routing
  (`route`), header fields (`headers`), the exchange between client and service as a
  state machine (`proxy`), and settings with their defaults (`config`).
- `app/` is the program around it: it reads the file, listens, and moves bytes.
- `tests/` runs the library on concrete values.

URIs are read and compared by `hyper::Uri`, behind the two trusted functions in
`src/uri.rs`. Their doc comments say what is claimed of it.

## Configuration

```toml
port = 8080

max_body_bytes = 2097152                      # default: 1048576
connection_pool_size = 16                     # default: two per processor core
gateway_timeout = { secs = 10, nanos = 0 }    # default: 5 seconds

# Requests for "/api/users" go to "http://users-service:3000/api/users".
[[routes]]
pattern = "/api/users"
target = "http://users-service:3000"

# Requests for "/assets/main.css" go to "http://static-files:9000/assets/main.css".
[[routes]]
pattern = "/assets"
target = "http://static-files:9000"
wildcard = true
```

A target may have a path of its own: with `http://files:9000/v1` as target, requests for
"/assets/main.css" go to "http://files:9000/v1/assets/main.css". Without `wildcard`, a
route matches its pattern only.

The first route that matches takes the request. A request without a route is answered
with 404, one whose body exceeds `max_body_bytes` with 413, and one whose service fails
with 502.
