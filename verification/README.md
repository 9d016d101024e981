# lineage_lite

Static data-lineage analysis for SQL, dbt and Python ETL code, verified with Verus.

The library (`src/`) scans source files for table-level edges (dbt `ref()` /
`source()`, SQL `CREATE TABLE AS`, `INSERT INTO`, views, joins, CTEs, pandas and
Spark reads and writes), extracts column-level lineage from SQL select lists,
builds a lineage graph and answers queries on it: downstream, upstream and impact
walks, statistics, traces, data-contract checks, diffs and merges of snapshots.
It renders graphs as tables, Graphviz DOT or a standalone HTML page.

Every executable function states its result in `requires` / `ensures` over
mathematical models (`Seq`, `Set`, `Map` and views of the data types), and the
laws of the library (such as the duality of downstream and upstream walks, or
that a stored snapshot rebuilds the graph, each edge kept once) are proof
functions.

Layout:

- `src/graph.rs`, `src/reach.rs`: the graph over petgraph and its breadth-first
  walks, with reachability and its laws.
- `src/sql*.rs`, `src/lineage.rs`, `src/dbt.rs`, `src/python.rs`, `src/pattern.rs`:
  the scanners; `src/scanner.rs` dispatches files to them.
- `src/assemble.rs`, `src/query.rs`, `src/contract.rs`, `src/diff.rs`,
  `src/trace.rs`, `src/merge.rs`: building a graph from a scan and the commands'
  logic.
- `src/dot.rs`, `src/html.rs`, `src/output.rs`: rendering.
- `src/storage.rs`: snapshot rows, timestamps and their round trip.
- `app/`: the command-line tool (argument parsing, directory walking, files,
  SQLite, printing).
