# flipsy

A light Oracle client: a `tnsnames.ora` reader, a SQL worksheet with a line
formatter and bind-variable tools, a live or simulated query runner, and an
execution-plan (`DBMS_XPLAN`) reader with bottleneck marks.

The library under `src/` is verified: every public function states what it
returns in its `ensures`, and the proofs are checked. The window, files, the listener probe and the
SQL*Plus processes live in `app/`, which hands the library plain values.

- `text`: string utilities over `Seq<char>`, and std's character classes
- `sqlfmt`: the SQL tokenizer and line builder (`format_sql`)
- `reformat`: the formatter's laws: formatting twice is formatting once, and
  the tokens of the text are kept, with clause keywords in capitals
- `binds`, `analysis`: bind variables and query structure (with `regex`)
- `tns`: `tnsnames.ora` entries
- `xplan`, `plan_tree`, `mock`: plan parsing, plan trees, the simulated engine
- `session`: the database session and what each SQL*Plus outcome does to it
- `numfmt`, `views`, `models`: figures, screen state and data types
- `regex_api`: the calls into the `regex` crate
