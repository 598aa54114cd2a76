# mysql-rust

A MySQL-compatible database server. Its core is a library that does no I/O and
is verified with [Verus](https://github.com/verus-lang/verus); the program
around it moves bytes.

## What the library states

- **Wire protocol** (`src/protocol`): packets, length-encoded numbers and texts,
  the handshake, result sets in text and binary form, prepared statements.
  Each encoder and decoder is tied to one description of the format, and what
  is written is proved to read back.
- **Authentication** (`src/auth`): SHA-1, SHA-256, `mysql_native_password` and
  `caching_sha2_password`. Whoever knows an account's password gets in.
- **SQL** (`src/query`): a tokenizer and a parser proved against a grammar, and
  an executor proved against the meaning of each statement.
- **Storage** (`src/storage`): typed tables with a primary-key index, an
  in-memory engine, transactions, and a checksummed log. Batches go in whole or
  not at all, keys stay unique, and what was written before a restart is there
  after it, even if the last write was cut short.
- **Server** (`src/server`): each connection's protocol as a state machine, who
  is let in, and what is counted and logged.

Files named `*laws.rs` hold the statements that span several functions.

## The program

`app/` holds what cannot be verified here: sockets, TLS, files, threads and the
clock. It hands bytes to the library and does what the library says.

| Variable | Default | Purpose |
|----------|---------|---------|
| `MYSQLRUST_USER` | *(unset)* | The account to create. Without it every login is denied. |
| `MYSQLRUST_PASSWORD` | *(unset)* | That account's password. Unset or empty: none is needed. |
| `MYSQLRUST_AUTH_PLUGIN` | `caching_sha2_password` | Or `mysql_native_password`, in any case. |
| `MYSQLRUST_LISTEN_ADDR` | `127.0.0.1:3306` | `host:port` to bind. |
| `MYSQLRUST_DATA_DIR` | *(unset)* | Directory of the log. Unset: nothing is persisted. |
