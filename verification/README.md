# mock-oracle

A slim, in-memory stand-in for Oracle Database in CI/CD, with its logic verified by Verus.

| Where | What |
|---|---|
| `src/` | The engine and the wire protocol: values, lexer, parser, expression evaluation, tables and constraints, transactions, DDL, PL/SQL, scripts, snapshots, packets, login and the calls of a connection. No I/O. |
| `app/` | The TCP listener and the Node binding. |
| `tests/` | Tests of the library. |

Contracts are stated over mathematical models: `Datum` for values, `Dec` for numbers,
`Moment` for dates, the trees of `src/tree.rs` for statements, `Sheet` and `Cat` for
tables, `World` for a session and its database, `State` for a connection.

Results that rest on floating point (EXP, LN, LOG, and POWER with such an exponent and the
like) are left open. Of a SQL statement that meets one the contracts still say what it keeps to:
a query changes nothing; INSERT, UPDATE and DELETE touch neither another table nor what is
committed, and leave the transaction as it was when they fail; CREATE TABLE commits and adds one
table, or none. Of a PL/SQL block that meets one they say that a failure undoes what the block did
and had not committed; the rest of what it does is left open.

Any user name and any service name are accepted. Every user shares one password: `oracle`
by default, or that of the `MOCK_ORACLE_PASSWORD` environment variable.
