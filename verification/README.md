# fraud_score

Scores card transactions by the labels of their nearest neighbours in an index.

- `src/` is the library, verified with Verus: timestamps and category codes, the
  query vector, the index file, the choice of clusters, the search and the answer.
  Floats appear there as bit patterns.
- `app/` is the HTTP service around it: JSON, files, sockets and floating-point
  arithmetic.
- `tests/` runs the library on examples.
