# oxi_gen

Converts CSV or TSV files to RDF with a SPARQL CONSTRUCT query evaluated once per row:
each column is bound to the variable of the same name, `?ROWNUM` to the row index.

The library under `src/` is verified with Verus:

- `args` — the command line, read into the settings of a run, with its errors.
- `text` — Unicode whitespace trimming, quote removal and the cleaning of column names.
- `split` — splitting a value at every occurrence of a delimiter.
- `tarql` — the settings, and the rows of bindings that a record gives once its split
  columns are expanded.
- `query_text` — the prefix declarations and variable names of a query, found with the
  `regex` crate.
- `functions` — the custom `tarql:expandPrefix` and `tarql:expandPrefixedName` functions.
- `run` — the decisions of a run: input and output, CSV reader settings, column names,
  the bindings handed to the query, flushing and stopping.
- `dedup` — the deduplication window.
- `evaluation` — the `spareval` evaluator, whose custom functions answer through
  `functions` and which records their IRIs and prefix map, and the evaluation of one
  row, whose result (or failure) records the substitution, query and evaluator used.
- `sparql` — parsing the query, making the evaluator for a query text, evaluating the
  query for each row, and rendering triples as N-Triples or as Turtle that declares the
  query's prefixes once, with `oxrdfio`.
- `conversion` — one step of a run per CSV record (its rows' substitutions, their triples,
  the deduplication window), the end of a run, and what a whole run writes.

`app/` holds the program: reading files and standard input, streaming CSV records and
writing the output.
