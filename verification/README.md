# indy_wallet

Wallet back ends for an agent that manages claims for many subjects, with
their logic verified by Verus.

- `src/` is the verified library:
  - `proxy`: REST endpoints, percent-encoded paths, request builders,
    response checks and the decoding of JSON bodies into items;
  - `remote`: the REST proxy wallet, as request/decision steps (a root
    wallet and virtual wallets, with fall-back to the root on `get`);
  - `virtualid`: the virtual wallet over an encrypted SQL store, as
    row/query/decision steps, and the key-change plan of a connection;
  - `postgres_wallet`: the handle tables behind a storage plug-in;
  - `tags`: record tags and their JSON form;
  - `report`: the report the REST client prints of a response body;
  - `keys`, `freshness`, `strmap`, `errors`: item keys, staleness, a small
    verified map keyed by text and the error kinds.
- `app/` is the unverified I/O around it: HTTP with `reqwest`, the SQLCipher
  store, the plug-in's C entry points and a REST client walk-through.
- `tests/` runs the library on concrete values.
