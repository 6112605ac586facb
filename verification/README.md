# invoice_ledgers

Two invoice-and-budget ledgers for freelance workers, verified with Verus.

* `KitaLedger`: a worker invoices a client; when the client pays, the
  amount is split over the worker's allocation buckets by percentage (the
  last bucket receives the rounding remainder), or goes to a "Wallet" bucket
  when no allocations are set. Workers withdraw from their buckets.
* `Kwagee`: the same in USDC, with an optional fixed budget per worker: the
  part of a payment above the budget goes to a "Savings" bucket, and only
  the budget part is split (or goes to a "Budget" bucket).

Layout:

* `src/` — the verified library. `order` (the byte order of bucket
  labels), `registry` (string-keyed association lists), `buckets` (balances
  kept in label order, crediting, splitting a payment, withdrawals),
  `invoice` (the invoice book and its lifecycle), `tables` (per-worker
  tables), `kita_ledger` and `kwagee` (the two ledgers, their models, the
  model of a history of calls, and their laws), `error` (why an operation
  is refused).
* `tests/` — tests of the library on concrete values.
* `app/` — the Soroban contracts: signature checks, contract storage, the
  ledger clock and events around the library.
