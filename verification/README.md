# yamama

A sans-I/O WebRTC server core, verified with Verus: STUN binding requests
are authenticated and answered, SRTP keys come from the DTLS session, RTP
packets are parsed and resequenced, and SCTP carries data-channel traffic.

## Layout

- `src/` — the verified library. Each module states its behaviour over
  mathematical models (`Seq<u8>` for wire bytes, ghost state structs for
  sessions and buffers) and proves its functions against them.
  - `bytes`, `net` — big/little-endian helpers and socket addresses.
  - `stun`, `rtp`, `chunk`, `sctp` — the wire formats, as parsers and
    builders with exact contracts, and round-trip laws.
  - `srtp` — key derivation, protection and unprotection, with the law that
    unprotect inverts protect.
  - `resequencer` — the reorder window, with laws on the order of output.
  - `association`, `dtls`, `peer`, `engine` — the state and decisions of
    a connection; the caller performs the I/O and the TLS engine runs.
  - `primitives` — the calls into the hash, cipher, checksum, random and
    TLS crates, each with the contract that the proofs rely on.
- `tests/` — tests run against the compiled library, with the real outside
  crates linked.
- `app/` — the unverified shell: the OpenSSL DTLS acceptor and session,
  `std::net` address conversions and the I/O traits.
