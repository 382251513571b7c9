# malachite

Verified core logic of a BFT consensus node, written in Verus. The functions in
`src/` are proved against their contracts; calls into outside crates (hex
encoding, SHA-256, Ed25519, random numbers, multiaddress decoding, std's default
hasher) go through a few trusted wrappers whose contracts state what those crates
document, or nothing where nothing can be promised (the random generators'
constructors).

## Layout

- `src/sync/`: value sync. Which heights to request from which peer, how pending
  requests are tracked and retried, which responses are accepted, and
  credit-based peer scoring (`ranges`, `state`, `handle`, `credit`).
- `src/streaming.rs`, `src/host_stream.rs`: proposal streams. Reassembly of
  streamed proposal parts in sequence order, and the messages a host sends for
  a proposal it builds or proposes again.
- `src/part_store.rs`, `src/mock_host.rs`, `src/content.rs`, `src/proposal.rs`,
  `src/mempool.rs`: block parts, the content a proposal is assembled from, and
  the building of a proposal within a block size.
- `src/engine/`: consensus timeouts, the consensus actor's phase and connected
  peers, and the write-ahead log worker's decisions.
- `src/network/`: the validator proof protocol, per-IP connection limits, the
  validator set and persistent peers, the table of known peers, and what a
  multiaddress holds (peer id, IP address, the address without its peer id).
- `src/hash.rs`, `src/signing.rs`, `src/peer.rs`, `src/rng.rs`, `src/assoc.rs`:
  hashes and their hex form, Ed25519 keys and signatures, peer identities,
  randomness, and association lists used as maps.
- `app/`: what stays outside verification: floating-point peer scores, text
  formatting and error types, and the timed
  loop that drives proposal building.
- `tests/`: tests of the library through its public interface.
