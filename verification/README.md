# mini_redis

A small key/value server: clients send one JSON request per line over TCP
(`127.0.0.1:7878`) and get one JSON response per line. Commands: `PING`, `SET`,
`GET`, `DEL`, `KEYS`, `EXPIRE`, `TTL`, `INCR`, `DECR`, `SAVE`.

Layout:

- `src/` — the verified library (Verus).
  - `command.rs`: requests, responses, command names.
  - `store.rs`: entries with expiry deadlines; the store, a vector of
    (key, entry) pairs kept in increasing key order, viewed as a map.
  - `keyorder.rs`: the key order (byte-wise order of the UTF-8 text) and its laws.
  - `listing.rs`: key-ordered listings and the maps they describe.
  - `number.rs`: decimal parsing and formatting of `i64`.
  - `json.rs`: the `SAVE` dump as a JSON object.
  - `handler.rs`: what each request does to the store and how it is answered.
  - `expiry.rs`: removal of expired entries.
  - `laws.rs`: properties that span several requests.
- `app/` — the server around it: sockets, the shared lock, the cleanup task,
  JSON (de)serialisation of requests and responses, writing `dump.json`.
- `tests/` — tests of the library.
