# imageboard

An image board kept as the state of a NEAR smart contract: accounts open
threads and answer them, the owner appoints moderators, staff close threads,
remove them and ban accounts, and the board takes fungible-token deposits and
rewards the author of its third thread.

- `src/` is the library, verified with Verus.
  - `model.rs`: the board as sequences and maps, and what each operation
    makes of it.
  - `board.rs`: the board itself; each operation comes in two forms, one
    that takes the calling account (and deposit) as arguments, and one that
    reads them from the call being executed.
  - `laws.rs`: properties that hold across operations.
  - `chain.rs`: what the board reads from the blockchain about the call.
  - `store.rs`: the storage keys of the board's collections.
- `app/` is the contract: it stores the board whole, takes calls, logs, aborts
  where the board refuses a call, and sends the token transfers it owes.
- `tests/` runs the library against the SDK's mocked blockchain.
