# entros_mopro

Verified core of the Entros mobile prover for the Entros Hamming-distance
Groth16 circuit (BN254).

- `src/` — the library, verified with Verus:
  - `decimal.rs`: canonical decimal texts and their values;
  - `json.rs`: JSON documents as library values, read and written by `serde_json`;
  - `inputs.rs`: normalization of circuit inputs and checks of public signals;
  - `curve.rs`: membership of points in G1 and G2, decided by `ark-bn254`;
  - `circom.rs`: the proof types exchanged with the bindings and their validation;
  - `key.rs`: the SHA-256 identity of the proving keys;
  - `prover.rs`: the decisions around proof generation and verification.
- `app/` — the binding surface: reads proving keys from disk and runs the
  circom prover (`generate_circom_proof`, `verify_circom_proof`).
- `tests/` — tests of the library.
