# bifrost_dns

A mock DNS server for tests: records are managed over an HTTP API and
served over UDP and TCP; queries for other names can be relayed to upstream
servers, with a cache of their responses. A command-line client in the same
binary talks to the API.

## Layout

- `src/` — the verified library (Verus):
  - `models.rs` record types, records, name canonicalization;
  - `store.rs` the record store and its lock-protected handle;
  - `svcb.rs`, `rdata.rs` record-data parsing (A, AAAA, names, MX, SRV,
    TXT, SVCB/HTTPS presentation format);
  - `cache.rs` the fallback response cache (TTL rules, expiry, flushes);
  - `dns.rs` query resolution as two steps around the upstream relay,
    the relay order, the bytes of a reply, id patching, UDP truncation
    and TCP framing;
  - `config.rs` settings read from environment values;
  - `http.rs`, `client.rs` the client's requests and response reading;
  - `text.rs`, `parse.rs` character and number/address grammars;
  - `names.rs`, `wire.rs` the calls into the DNS protocol and base64
    crates (name and key reading, message decoding and encoding), behind
    trusted wrappers;
  - `laws.rs` properties that span several operations.
- `app/` — the binary: sockets, the HTTP server, argument parsing and the
  environment.
- `tests/` — tests of the library on concrete values.
