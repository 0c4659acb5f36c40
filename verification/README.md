# oneshare

A self-hosted web file-sharing server whose policy core is verified with
Verus.

- `src/` — the verified library: path-based ACLs and the virtual share
  root, path sanitizing, listing order, byte ranges, trash naming, share
  links and their visitors' read-only grants, transfer tokens (HMAC-signed,
  bound to encrypted shadow paths), ID-token checks for OpenID Connect
  login and the order they run in, who is behind a request (guest, member
  or share visitor), request routing under a URL prefix, the transfer capability
  policy, and how release builds serve the embedded frontend (asset table,
  SHA-256 ETags, the bundle version that busts caches, 304 and
  Cache-Control). Laws that hold for every input are public proof functions
  (`acl_laws.rs`, `law_*` elsewhere).
- `app/` — the server around it: configuration loading, SQLite storage,
  HTTP handlers (axum), the OpenID Connect client (reqwest), the embedded
  frontend bytes and the embedded libfw transfer router.
- `tests/` — tests of the library on concrete values, run with the real
  outside crates.
