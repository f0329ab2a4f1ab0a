# pins_prover

The verified core of the PIVX Name Service state-transition prover. For
every transaction of a batch the library checks replay protection, the
domain-name and Bech32 target-address rules, the per-operation invariants
(`REG`, `UPD`, `CHG`, `LST`, `ULT`, `BUY`), the owner's Ed25519 signature
over the canonical message, and the sparse Merkle tree transition of the
domain's leaf, and folds the batch into a new root.

- `src/` is the library, verified with Verus. Each public function states
  its result exactly; SHA-256, Ed25519 verification, Bech32 decoding and
  hex encoding are reached through small trusted wrappers whose results
  are named by uninterpreted spec functions.
- `tests/` exercises the library with real keys, signatures and proofs.
- `app/` holds the zkVM guest (`main.rs`: read the payload, run the batch,
  commit the ABI-encoded public values) and the host prover (`script.rs`).
