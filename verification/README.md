# draox_plugins

The verified core of a plugin-hosting socket server, written in Verus.

- `src/` is the library. Every function in it is verified against its
  `requires`/`ensures`. The modules cover plugin versions and dependency
  ordering, lifecycle rules, route and permission registries, marketplace
  search and catalogues, messaging (channels, store, presence, typing,
  receipts, moderation), identity (password hashes, tokens, sessions, MFA),
  jobs and scheduling, and end-to-end encryption (X25519, HKDF, ratchets).
- Calls into outside crates (argon2, jsonwebtoken, chacha20poly1305, hkdf,
  x25519-dalek, sha2, totp-rs, cron, chrono, uuid) go through small trusted
  wrappers. The doc comment on each wrapper says what its contract claims.
- `tests/` runs the library on concrete values.
- `app/` holds what cannot be verified: file and network I/O (the
  plugins-directory watcher, the OAuth HTTP exchange, the messaging HTTP
  routes), async runtimes (workers, the scheduler loop, awaiting plugin
  hooks around the registry's lifecycle steps), floating-point backoff,
  and serde copies of library types.
