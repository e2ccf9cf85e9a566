# dis

Anonymous authentication and end-to-end encryption for the Dis chat platform,
written in Verus.

- `src/` is the verified library.
  - `captcha`: proof-of-work CAPTCHAs (SHA-256 over the challenge and the
    solution's little-endian bytes, counted in leading zero bits) and a rate
    limiter over the attempts recorded per address hash in a time window.
  - `anonymous_token`, `token_format`, `json_string`, `json_number`,
    `json_claims`: HMAC-SHA256 JWTs with anonymous user ids, thirty-day
    expiry, Argon2id password hashing (64 MiB, three passes, four lanes) and
    AES-256-GCM email encryption, recoverable with the key it was sealed
    under. The claims JSON is written in serde_json's compact form and read
    following serde_json's rules for such a struct (taken from its source),
    both by verified code; `tests/claims_tests.rs` compares both directions
    with serde_json itself on sample claims.
  - `signal_protocol`, `encryption`: X3DH one-to-one encryption with
    Ed25519-signed pre-keys and an HMAC-SHA256 key derivation, and
    AES-256-GCM group sessions with numbered nonces that refuse a message
    whose nonce they have already accepted. Published bundles carry public
    keys and signatures only.
  - `auth`: the authentication service.
  - `primitives`, `b64`, `entropy`, `text`: the trusted calls into sha2, hmac,
    aes-gcm, x25519-dalek, ed25519-dalek, argon2, base64, rand, chrono, uuid
    and std. Their contracts are believed; everything else is proved against
    them.
- `tests/` runs the library against the real cryptographic crates.
- `app/` holds serde forms of the library's data types and the registration
  that reads the service's email key from the environment.
