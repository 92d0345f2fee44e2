# backend

The core of a distributed chat server (guilds, channels, direct messages,
a real-time gateway), written as a Verus library whose behaviour is proved
against its contracts.

- `src/domain`: ids (Snowflake generation), permissions and overwrites,
  relationships, invites, mentions, the event-log projection, and the CRDTs
  used for offline sync (last-writer-wins map, observed-remove set,
  positive-negative counter) with their merge laws.
- `src/auth`: proof-of-work challenges, TOTP, signed access tokens, refresh
  tokens, password hashing and WebAuthn; the cryptography is done by vetted
  crates behind trusted wrappers whose contracts say what each call promises
  (of a random challenge, nothing).
- `src/gateway`: the frame protocol, the session registry with per-session
  numbering and bounded replay buffers (resume), the decisions of a
  connection's lifecycle, the checks of a message sent over REST, and
  per-user routing across nodes.
- `src/cluster.rs`: the static cluster configuration and its checks.
- `src/collections.rs`: the sorted map the other modules build on.
- `app/`: the command-line client and the asynchronous edges (sockets,
  channels, clocks, storage ports, JSON) around the library.
- `tests/`: tests of the library on concrete values.
