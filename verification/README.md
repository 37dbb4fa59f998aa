# lishdb

A small column-oriented SQL database: a WebSocket server takes SQL
statements (`CREATE TABLE`, `DROP TABLE`, `SHOW TABLES`, `SELECT`, and the
grammar of `INSERT`) and answers with a table or a message.

## Layout

- `src/` is the engine, written in Verus and proved against its contracts:
  - `grammar` states the statement grammar over character sequences and
    `parser` is proved to compute it;
  - `value`, `valueops` and `numtext` hold the value encoding, its text
    forms, comparisons and integer arithmetic;
  - `expression` holds expressions, their types and their evaluation;
  - `storage` holds table metadata and ids and the column-file record
    format (reading a record back gives what was written), and plans the
    appends of an insert;
  - `catalog` is the in-memory set of table definitions;
  - `executor` turns statements into plans and runs them against the
    catalog; `optimizer` rewrites statements and folds constants;
  - `table`, `cache` and `index` are abstract tables and their set
    operators, the value cache and the in-memory index.
- `app/` is the process around it: column files and definition files on
  disk, the request handler that runs each statement as a task, the
  server and the client, and the floating-point work.
- `tests/` exercises the engine on concrete statements and values.
