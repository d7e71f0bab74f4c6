# ream_networking

The networking logic of a consensus client, written in Verus: the functions in
`src/` carry contracts that Verus proves, but for the shared aggregator flag
(`aggregator`), whose value lives in an atomic that the contracts do not track.

- `subnet`, `bitfield`, `rlp`, `enr_fields`, `eth2`, `discovery_config`: the ENR
  entries a node announces (attestation and sync committee subnet bitfields, the
  fork id, the QUIC port), the peer tests built on them, and the discovery settings.
- `lean_state`, `beacon_state`, `scoring`, `aggregator`: what a node keeps about
  its peers — connection state, reported checkpoints and the choice of a head to
  sync towards, custody and sampling scores, bans.
- `lean_topics`, `gossip_topics`, `beacon_topics`, `gossip_config`, `gossip_protocol`:
  gossip topic strings and their parsing, the topics a beacon node subscribes to,
  message size limits and message ids.
- `req_resp`, `messages`, `meta_data`: the SSZ-snappy framing of requests and
  responses, response codes, the request and response messages, and the decoding of
  a peer's metadata.
- `discovery_config`: besides the discovery settings, the peers a finished query
  yields and the rotation of attestation subnet subscriptions.
- `validate`, `light_client`, `sync_committee`: the verdicts on gossiped blocks, sidecars, sync
  committee contributions and light client updates, computed from what the chain
  store reports, the sync subcommittee keys, how a verdict is answered to the gossip
  layer and whether the message is taken in.
- `text`, `bytes`, `sorting`: decimal and hexadecimal text, byte strings, sorting.

Calls into outside crates (`alloy-rlp`, `ssz_types`, `ethereum_ssz`, `sha2`, `hex`,
`snap`, `unsigned-varint`, `rand`) go through small wrappers whose contracts state
what those crates document. `app/` holds the clock, the ban reasons (their scores
are floating point) and the checks that callers owe the library's preconditions.
`tests/` runs the library on concrete values.
