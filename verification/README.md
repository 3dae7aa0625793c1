# aidflow

A verified ledger for aid-supply purchase orders. An administrator approves
supplier wallets; an NGO creates an order for an approved supplier; the
supplier accepts it and hands in a proof of delivery; a field officer verifies
receipt; the NGO marks it paid, which adds the amount to the supplier's running
total. Any party to an open order may freeze it by raising a dispute.

- `src/types.rs`: addresses, orders, supplier records, refusals.
- `src/model.rs`: the ledger as a state machine over mathematical values
  (`FlowState`, `Action`, `step`) and its invariant `valid`.
- `src/flow.rs`: `AidFlow`, the executable ledger, each request proved to
  behave as `step` says.
- `src/laws.rs`: properties of the state machine: the invariant is kept (among
  it, each supplier's running total is the sum of its paid orders), orders
  follow their lifecycle, paid and disputed orders are final, only the named
  parties move an order, payment totals, read-back after creation and approval,
  and reloading saved parts.
- `src/history.rs`: over any sequence of requests, an order is paid only after
  its creation, acceptance, delivery and verification by the right parties, in
  that order, with no dispute of it.
- `app/lib.rs`: the Soroban contract: signature checks, instance storage, the
  ledger clock and the payment event around the verified ledger.
