# gtp

The verified core of GTP, a real-time transport for games over UDP.

- `src/` is the library, checked by Verus: path validation and
  anti-amplification, the connection state machine, replay protection, RTT and
  one-way-delay estimation, acknowledgement tracking and loss detection,
  fragment reassembly, delivery de-duplication, the CUBIC window, pacing,
  backpressure, route health, reports and the decision log, route switching,
  the handshake key schedule and the AEAD packet protector. Cryptography is
  done by `chacha20poly1305`, `hkdf`/`hmac`/`sha2`, `x25519-dalek`, `subtle`
  and `zeroize`, each behind a small trusted wrapper whose contract names what
  the library relies on.
- `tests/` exercises the library from outside.
- `app/` holds what the verifier does not take: real-valued scoring and
  congestion arithmetic, the configuration presets, telemetry formatting and
  the UDP socket layer.

The connection engine of GTP (the connection object and its hot path, frame
encoding and decoding, the send scheduler, the async endpoint and the
command-line tool) is not in this crate. It is built on the project's
`gtp_types`, `gtp_wire`, `gtp_scheduler` and `gtp_sim` crates, which this
crate does not have. The engine's decisions that do not depend on them are
here: path validation and the anti-amplification budget (`PathManager`), the
hello rate limit, which receive errors are transient, the connection state
machine, and the loss, acknowledgement and reassembly machinery it drives.
