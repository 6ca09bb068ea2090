# forge_lint

The `missing-events-access-control` lint for Solidity, verified with Verus.

The lint flags protected functions that change `address` state used for access control without
emitting an event:

```solidity
function transferOwnership(address newOwner) external onlyOwner {
    owner = newOwner;
}
```

A function is looked into when it is an external or public function that can change state, when
its body or a modifier that it invokes checks `msg.sender` against an address, and when neither
emits an event. What the checks compare `msg.sender` with are the authorities. A write to an
authority is reported when the value can come from the caller, or when it is a `delete`; each
authority is reported once.

## Layout

- `src/hir.rs`: the program that the lint reads; `src/resolve.rs`: what makes it well formed.
- `src/walk.rs`: the walks that all analyses share; `src/names.rs`, `src/vars.rs`: names and
  variables.
- `src/sender.rs`, `src/reads.rs`, `src/gate.rs`: conditions on `msg.sender` and guards.
- `src/events.rs`: emitted events.
- `src/arguments.rs`, `src/authority.rs`: modifier arguments and authorities.
- `src/writes.rs`, `src/analyzer.rs`: written variables and taint.
- `src/lint.rs`: the lint itself.
- `src/report.rs`, `src/laws.rs`: what holds of every analysis and of the lint as a whole.
- `app/`: the lint on programs that solar has resolved.
