# tx_processor

A toy payments engine: it applies deposits, withdrawals, disputes, resolves and
chargebacks to client accounts and renders the final balances, with the rules
written as Verus contracts and proved.

- `src/amount.rs`: `Amount`, a decimal as `(mantissa, scale)`, and the calls
  into `rust_decimal` that add, subtract, compare, round, normalize and display
  amounts.
- `src/model.rs`: identifiers, transactions, stored transactions, `Account`
  with its atomic balance updates, and the rendering of an output row.
- `src/engine.rs`: `PaymentsEngine`, whose `process` is stated exactly by
  `process_spec`, and the laws the state machine keeps.
- `src/io.rs`: the account report: header and rows in ascending client order.
- `src/ledger.rs`: the law that balances agree with the accepted transactions.
- `app/`: the command line, CSV reading and writing, and log messages.
