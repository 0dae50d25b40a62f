# onboarding_bridge

The accounting and governance core of a Soroban contract that funds contract
addresses, verified with Verus.

- `src/model.rs` — the abstract state (`BridgeView`) and the effect of every
  operation on it, as spec functions.
- `src/bridge.rs` — `OnboardingBridge<A>`, the executable state, whose
  operations are proved to follow the model; pending operations are kept in a
  vector in increasing order of identifier and viewed as a map.
- `src/digest.rs` — operation identifiers: SHA-256 of the label, computed by
  the Soroban host.
- `src/error.rs` — the refusals and their messages.
- `src/token.rs` — a minimal token ledger.
- `src/laws.rs` — properties that span operations.
- `app/lib.rs` — the Soroban contract: storage, authorization, ledger time and
  events around the library.
