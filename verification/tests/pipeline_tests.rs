use lineage_lite::assemble::{build_graph, infer_node_kinds};
use lineage_lite::commands::{column_filter, snapshot_output};
use lineage_lite::contract::check_contract;
use lineage_lite::diff::{diff_graphs, edge_label};
use lineage_lite::error::LineageError;
use lineage_lite::graph::LineageGraph;
use lineage_lite::merge::merge_into;
use lineage_lite::node::{ColumnLineage, EdgeRelation, LineageEdge, Node, NodeId, NodeKind, SourceColumn, TransformKind};
use lineage_lite::output::trace_rows_table;
use lineage_lite::scanner::{ScanOrchestrator, ScanResult};
use lineage_lite::storage::{
    chrono_now, decimal_string, graph_from_rows, graph_to_rows, parse_edge_relation, parse_node_kind, EdgeRow, NodeRow,
    ScanMetadata, SqliteStorage,
};
use lineage_lite::trace::trace_table;

fn node(name: &str, kind: NodeKind, cols: &[&str]) -> Node {
    Node {
        id: NodeId::from(name),
        kind,
        source_file: "f.sql".to_string(),
        columns: cols.iter().map(|c| c.to_string()).collect(),
    }
}

fn edge(s: &str, t: &str, rel: EdgeRelation) -> LineageEdge {
    LineageEdge {
        source: NodeId::from(s),
        target: NodeId::from(t),
        relation: rel,
        source_file: "f.sql".to_string(),
        line_number: None,
    }
}

fn lineage(table: &str, column: &str, transform: TransformKind, expr: &str) -> ColumnLineage {
    ColumnLineage {
        target_table: table.to_string(),
        target_column: column.to_string(),
        source_columns: vec![SourceColumn { table: Some("raw.x".to_string()), column: "a".to_string() }],
        transform,
        expression: expr.to_string(),
    }
}

#[test]
fn kinds_inferred_from_relations() {
    assert_eq!(infer_node_kinds(&EdgeRelation::DbtRef), (NodeKind::DbtModel, NodeKind::DbtModel));
    assert_eq!(infer_node_kinds(&EdgeRelation::DbtSource), (NodeKind::DbtSource, NodeKind::DbtModel));
    assert_eq!(infer_node_kinds(&EdgeRelation::PythonReadWrite), (NodeKind::SqlTable, NodeKind::PythonEtl));
    assert_eq!(infer_node_kinds(&EdgeRelation::JoinOn), (NodeKind::SqlTable, NodeKind::SqlTable));
}

#[test]
fn graph_built_from_a_scan() {
    let orch = ScanOrchestrator::default_scanners();
    let mut scan = ScanResult::empty("proj");
    orch.scan_source(&mut scan, "models/stg_orders.sql", "sql", "SELECT * FROM {{ source('raw', 'orders') }}").unwrap();
    orch.scan_source(&mut scan, "mart.sql", "sql", "CREATE TABLE Mart.Orders AS SELECT id, Amount FROM stg_orders;").unwrap();
    let built = build_graph(scan);
    let g = &built.graph;
    assert_eq!(built.files_scanned, 2);
    assert_eq!(g.node_count(), 3);
    assert_eq!(g.edge_count(), 2);
    assert_eq!(g.get_node(&NodeId::from("raw.orders")).unwrap().kind, NodeKind::DbtSource);
    assert_eq!(g.get_node(&NodeId::from("stg_orders")).unwrap().kind, NodeKind::DbtModel);
    let mart = g.get_node(&NodeId::from("mart.orders")).unwrap();
    assert_eq!(mart.kind, NodeKind::SqlTable);
    assert_eq!(mart.columns, vec!["id", "amount"]);
    assert_eq!(built.col_lineage.len(), 2);
    let down = g.impact(&NodeId::from("raw.orders")).unwrap();
    assert_eq!(down.len(), 2);
}

#[test]
fn contract_violations_found() {
    let mut g = LineageGraph::new();
    g.add_node(node("reports.users", NodeKind::SqlTable, &["id", "email"]));
    g.add_node(node("raw.users", NodeKind::SqlTable, &["email"]));
    let cl = vec![
        lineage("reports.daily", "phone", TransformKind::Direct, "phone"),
        lineage("staging.x", "email", TransformKind::Direct, "email"),
    ];
    let rules = "[[rules]]\nname = \"pii\"\ncolumns = [\"Email\", \"phone\"]\r\ndenied_schemas = [\"reports\", 'exports']\r\n";
    let v = check_contract(rules, &g, &cl);
    let found: Vec<(String, String)> = v.iter().map(|x| (x.table.clone(), x.column.clone())).collect();
    assert_eq!(
        found,
        vec![
            ("reports.daily".to_string(), "phone".to_string()),
            ("reports.users".to_string(), "email".to_string()),
        ]
    );
}

#[test]
fn contract_without_denied_schemas_finds_nothing() {
    let mut g = LineageGraph::new();
    g.add_node(node("reports.users", NodeKind::SqlTable, &["email"]));
    assert!(check_contract("columns = [\"email\"]\n", &g, &vec![]).is_empty());
    assert!(check_contract("", &g, &vec![]).is_empty());
    assert!(check_contract("denied_schemas = [\"reports\"]\ncolumns = []\n", &g, &vec![]).is_empty());
}

#[test]
fn diff_of_two_graphs() {
    let mut base = LineageGraph::new();
    base.add_node(node("a", NodeKind::SqlTable, &[]));
    base.add_node(node("b", NodeKind::SqlTable, &[]));
    base.add_edge(edge("a", "b", EdgeRelation::SelectFrom)).unwrap();
    let mut cur = LineageGraph::new();
    cur.add_node(node("b", NodeKind::SqlTable, &[]));
    cur.add_node(node("c", NodeKind::SqlTable, &[]));
    cur.add_edge(edge("b", "c", EdgeRelation::SelectFrom)).unwrap();
    cur.add_edge(edge("b", "c", EdgeRelation::JoinOn)).unwrap();
    let d = diff_graphs(&base, &cur);
    assert_eq!(d.added_nodes, vec!["c"]);
    assert_eq!(d.removed_nodes, vec!["a"]);
    assert_eq!(d.added_edges, vec!["b -> c"]);
    assert_eq!(d.removed_edges, vec!["a -> b"]);
    assert!(!d.is_empty());
    assert!(diff_graphs(&cur, &cur).is_empty());
    assert_eq!(edge_label(&edge("x", "y", EdgeRelation::DbtRef)), "x -> y");
}

#[test]
fn trace_of_a_table() {
    let long_expr = "CASE WHEN aaaaaaaaaa = 1 THEN bbbbbbbbbb ELSE cccccccccc END + dddddddddd";
    let cl = vec![
        lineage("mart.t", "a", TransformKind::Direct, "a"),
        lineage("other.t", "b", TransformKind::Direct, "b"),
        lineage("mart.t", "s", TransformKind::Aggregation("SUM".to_string()), "SUM(a)"),
        lineage("mart.t", "e", TransformKind::Expression, long_expr),
        ColumnLineage {
            target_table: "mart.t".to_string(),
            target_column: "k".to_string(),
            source_columns: vec![],
            transform: TransformKind::Constant,
            expression: "1".to_string(),
        },
    ];
    let report = trace_table(&cl, "MART.T");
    assert_eq!(report.rows.len(), 4);
    assert_eq!(report.direct, 1);
    assert_eq!(report.aggregations, 1);
    assert_eq!(report.others, 2);
    assert_eq!(report.direct + report.aggregations + report.others, report.rows.len());
    assert_eq!(report.rows[0].column, "a");
    assert_eq!(report.rows[0].transform, "direct");
    assert_eq!(report.rows[0].sources, "raw.x.a");
    assert_eq!(report.rows[1].transform, "SUM()");
    let shown = &report.rows[2].expression;
    assert_eq!(shown, &format!("{}…", &long_expr[..57]));
    assert_eq!(report.rows[3].sources, "（無）");
    assert_eq!(report.rows[3].transform, "constant");
    let table = trace_rows_table(&report);
    assert!(table.contains("SQL 表達式"));
    assert!(trace_table(&cl, "none").rows.is_empty());
}

#[test]
fn merging_snapshots() {
    let mut a = LineageGraph::new();
    a.add_node(node("x", NodeKind::DbtModel, &["c1"]));
    a.add_node(node("y", NodeKind::DbtModel, &[]));
    a.add_edge(edge("x", "y", EdgeRelation::DbtRef)).unwrap();
    let mut b = LineageGraph::new();
    b.add_node(node("y", NodeKind::SqlTable, &[]));
    b.add_node(node("z", NodeKind::SqlTable, &[]));
    b.add_edge(edge("y", "z", EdgeRelation::SelectFrom)).unwrap();
    let mut merged = LineageGraph::new();
    merge_into(&mut merged, &a);
    assert_eq!(merged.node_count(), 2);
    assert_eq!(merged.get_node(&NodeId::from("x")).unwrap().columns, vec!["c1"]);
    merge_into(&mut merged, &b);
    assert_eq!(merged.node_count(), 3);
    assert_eq!(merged.edge_count(), 2);
    assert_eq!(merged.get_node(&NodeId::from("y")).unwrap().kind, NodeKind::DbtModel);
    let meta = ScanMetadata::merged(2, &merged);
    assert_eq!(meta.scanned_at, "merged");
    assert_eq!(meta.root_path, "multiple");
    assert_eq!((meta.file_count, meta.node_count, meta.edge_count), (2, 3, 2));
}

#[test]
fn where_clause_column_filter() {
    assert_eq!(column_filter(Some("column=email")), Some("email".to_string()));
    assert_eq!(column_filter(Some("column:phone")), Some("phone".to_string()));
    assert_eq!(column_filter(Some("table=x")), None);
    assert_eq!(column_filter(None), None);
}

#[test]
fn snapshot_paths_by_extension() {
    assert!(snapshot_output("out/lineage.db"));
    assert!(snapshot_output("x.sqlite"));
    assert!(snapshot_output("x.sqlite3"));
    assert!(!snapshot_output("x.html"));
    assert!(!snapshot_output("x"));
}

#[test]
fn rows_round_trip() {
    let mut g = LineageGraph::new();
    g.add_node(node("raw.orders", NodeKind::SqlTable, &["id", "amount"]));
    g.add_node(node("stg.orders", NodeKind::DbtModel, &[]));
    g.add_edge(LineageEdge {
        source: NodeId::from("raw.orders"),
        target: NodeId::from("stg.orders"),
        relation: EdgeRelation::CreateTableAs,
        source_file: "test.sql".to_string(),
        line_number: Some(1),
    })
    .unwrap();
    let (nodes, edges) = graph_to_rows(&g);
    assert_eq!(nodes[0].kind, "SqlTable");
    assert_eq!(nodes[0].columns_json, "[\"id\",\"amount\"]");
    assert_eq!(nodes[1].columns_json, "[]");
    assert_eq!(edges[0].relation, "CreateTableAs");
    let back = graph_from_rows(&nodes, &edges).unwrap();
    assert_eq!(back.node_count(), 2);
    assert_eq!(back.edge_count(), 1);
    assert_eq!(back.get_node(&NodeId::from("raw.orders")).unwrap().columns, vec!["id", "amount"]);
    assert_eq!(back.get_node(&NodeId::from("stg.orders")).unwrap().kind, NodeKind::DbtModel);
    assert_eq!(back.edges()[0].line_number, Some(1));
    assert_eq!(back.edges()[0].relation, EdgeRelation::CreateTableAs);
}

#[test]
fn rows_with_unknown_endpoint_fail() {
    let nodes = vec![NodeRow {
        id: "a".to_string(),
        kind: "Whatever".to_string(),
        source_file: "f".to_string(),
        columns_json: "not json".to_string(),
    }];
    let edges = vec![EdgeRow {
        source: "a".to_string(),
        target: "b".to_string(),
        relation: "DbtRef".to_string(),
        source_file: "f".to_string(),
        line_number: None,
    }];
    match graph_from_rows(&nodes, &edges) {
        Err(LineageError::NodeNotFound(n)) => assert_eq!(n, "b"),
        _ => panic!("the edge to an unknown node must be refused"),
    }
    let g = graph_from_rows(&nodes, &vec![]).unwrap();
    let n = g.get_node(&NodeId("a".to_string())).unwrap();
    assert_eq!(n.kind, NodeKind::SqlTable);
    assert!(n.columns.is_empty());
}

#[test]
fn stored_names_parse_back() {
    for k in [NodeKind::SqlTable, NodeKind::SqlView, NodeKind::DbtModel, NodeKind::DbtSource, NodeKind::PythonEtl] {
        assert_eq!(parse_node_kind(k.name()), k);
    }
    assert_eq!(parse_node_kind("nonsense"), NodeKind::SqlTable);
    assert_eq!(parse_edge_relation("PythonReadWrite"), EdgeRelation::PythonReadWrite);
    assert_eq!(parse_edge_relation(""), EdgeRelation::SelectFrom);
}

#[test]
fn timestamps_in_decimal() {
    assert_eq!(decimal_string(0), "0");
    assert_eq!(decimal_string(12345), "12345");
    assert_eq!(decimal_string(u64::MAX), u64::MAX.to_string());
    let now = chrono_now();
    assert!(!now.is_empty() && now.chars().all(|c| c.is_ascii_digit()));
    let g = LineageGraph::new();
    let meta = ScanMetadata::new("/test", 7, &g);
    assert_eq!(meta.root_path, "/test");
    assert_eq!(meta.file_count, 7);
    assert_eq!(SqliteStorage::new("x.db").path(), "x.db");
}

#[test]
fn stored_rows_keep_each_edge_once() {
    let mut g = LineageGraph::new();
    g.add_node(node("a", NodeKind::SqlTable, &[]));
    g.add_node(node("b", NodeKind::SqlTable, &[]));
    let mut first = edge("a", "b", EdgeRelation::SelectFrom);
    first.line_number = Some(3);
    g.add_edge(first).unwrap();
    g.add_edge(edge("a", "b", EdgeRelation::SelectFrom)).unwrap();
    g.add_edge(edge("a", "b", EdgeRelation::JoinOn)).unwrap();
    assert_eq!(g.edge_count(), 3);
    let (_, edges) = graph_to_rows(&g);
    assert_eq!(edges.len(), 2);
    assert_eq!(edges[0].relation, "SelectFrom");
    assert_eq!(edges[0].line_number, Some(3));
    assert_eq!(edges[1].relation, "JoinOn");
}

#[test]
fn downstream_lists_nearer_nodes_first() {
    let mut g = LineageGraph::new();
    for n in ["a", "b", "c", "d"] {
        g.add_node(node(n, NodeKind::SqlTable, &[]));
    }
    g.add_edge(edge("a", "b", EdgeRelation::SelectFrom)).unwrap();
    g.add_edge(edge("b", "c", EdgeRelation::SelectFrom)).unwrap();
    g.add_edge(edge("a", "d", EdgeRelation::SelectFrom)).unwrap();
    let down: Vec<_> = g.downstream(&NodeId::from("a"), None).unwrap().iter().map(|n| n.id.0.clone()).collect();
    assert_eq!(down, vec!["d", "b", "c"]);
    let impact: Vec<_> = g.impact(&NodeId::from("a")).unwrap().iter().map(|n| n.id.0.clone()).collect();
    assert_eq!(impact, down);
}
