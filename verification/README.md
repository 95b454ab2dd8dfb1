# loan_manager

A lending pool with a hardened liquidation engine, verified with Verus:
an oracle failover chain (primary, secondary, 30-minute TWAP), dynamic
liquidator incentives under a penalty cap, partial liquidation to a 1.1
health factor, and pro-rata socialization of bad debt across depositors.

Layout:

- `src/liquidation.rs`: the liquidation math (health ratio, dynamic bonus,
  unit/value conversion, the liquidation plan, pro-rata shares) and its laws.
- `src/oracle.rs`: oracle answer validation and the TWAP accumulator.
- `src/storage.rs`: the stored types and the keyed lists that hold them.
- `src/model.rs`: the contract state as a mathematical value, its invariant,
  and each request as a function from state to next state and transfers.
- `src/pool.rs`: `LoanManagerContract`, whose every entry point is proved
  to keep the invariant and to do exactly what the model says.
- `src/laws.rs`: properties that span requests (solvency, isolation of a
  liquidation, the circuit breaker, deposit/withdraw round trip).
- `app/lib.rs`: the Soroban contract around the library: authorisation,
  storage, oracle calls, token transfers and events.
