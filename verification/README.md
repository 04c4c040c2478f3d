# payments-engine

A payments engine: it reads transaction CSV (`type,client,tx,amount`) and
reports each client's balances (`client,available,held,total,locked`).

- `src/amount.rs`: exact decimal amounts with at most four fractional places,
  counted in ten-thousandths and kept within what a `rust_decimal::Decimal`
  holds exactly; reading decimal text goes through `rust_decimal`.
- `src/domain.rs`: client and transaction identifiers, the rows of the input,
  and the check of the input's headers.
- `src/tx_processor.rs`: accounts, the dispute lifecycle of transactions, and
  the routing of rows to accounts, specified by a step function over an
  abstract model of the accounts.
- `src/laws.rs`: what holds of every row and every reachable state: rejections
  are atomic, frozen accounts stay frozen, clients are isolated, a dispute and
  its resolution cancel out, held funds cover the disputes.
- `app/main.rs`: the command line: CSV reading and writing, logging of
  rejected transactions, exit status.

Run it with `payments-engine transactions.csv > accounts.csv`.
