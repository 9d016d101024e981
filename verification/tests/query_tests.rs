use lineage_lite::graph::LineageGraph;
use lineage_lite::node::{EdgeRelation, LineageEdge, Node, NodeId, NodeKind};
use lineage_lite::output::matches_table;

fn build_graph_with_columns() -> LineageGraph {
    let mut g = LineageGraph::new();
    g.add_node(Node {
        id: NodeId::from("raw.users"),
        kind: NodeKind::SqlTable,
        source_file: "users.sql".to_string(),
        columns: vec!["id".into(), "email".into(), "name".into()],
    });
    g.add_node(Node {
        id: NodeId::from("raw.orders"),
        kind: NodeKind::SqlTable,
        source_file: "orders.sql".to_string(),
        columns: vec!["id".into(), "amount".into(), "user_id".into()],
    });
    g.add_node(Node {
        id: NodeId::from("mart.customers"),
        kind: NodeKind::DbtModel,
        source_file: "customers.sql".to_string(),
        columns: vec!["user_id".into(), "email".into(), "total_orders".into()],
    });
    g.add_edge(LineageEdge {
        source: NodeId::from("raw.users"),
        target: NodeId::from("mart.customers"),
        relation: EdgeRelation::DbtRef,
        source_file: "customers.sql".to_string(),
        line_number: None,
    })
    .unwrap();
    g
}

#[test]
fn test_stats_without_filter() {
    let g = build_graph_with_columns();
    let report = g.stats(None);
    assert_eq!(report.total_nodes, 3);
    assert_eq!(report.total_edges, 1);
    assert_eq!(*report.nodes_by_kind.get("SQL Table").unwrap(), 2);
    assert_eq!(*report.nodes_by_kind.get("dbt Model").unwrap(), 1);
    assert!(report.column_matches.is_empty());
}

#[test]
fn test_stats_filter_email() {
    let g = build_graph_with_columns();
    let report = g.stats(Some("email"));
    assert_eq!(report.column_matches.len(), 2);
    let matched_nodes: Vec<&str> = report.column_matches.iter().map(|m| m.node_id.0.as_str()).collect();
    assert!(matched_nodes.contains(&"raw.users"));
    assert!(matched_nodes.contains(&"mart.customers"));
}

#[test]
fn test_stats_filter_no_match() {
    let g = build_graph_with_columns();
    let report = g.stats(Some("phone"));
    assert!(report.column_matches.is_empty());
}

#[test]
fn stats_filter_is_lowered_and_matches_substrings() {
    let g = build_graph_with_columns();
    let report = g.stats(Some("USER"));
    let names: Vec<&str> = report.column_matches.iter().map(|m| m.node_id.0.as_str()).collect();
    assert_eq!(names, vec!["raw.orders", "mart.customers"]);
    assert_eq!(report.column_matches[0].matched_columns, vec!["user_id"]);
    assert_eq!(report.column_matches[1].kind, NodeKind::DbtModel);
    assert_eq!(report.column_matches[1].source_file, "customers.sql");
}

#[test]
fn kinds_by_decreasing_count() {
    let g = build_graph_with_columns();
    let report = g.stats(None);
    let sorted = report.nodes_by_kind.by_count();
    assert_eq!(sorted, vec![("SQL Table".to_string(), 2), ("dbt Model".to_string(), 1)]);
    assert!(report.nodes_by_kind.get("Python ETL").is_none());
}

#[test]
fn empty_graph_statistics() {
    let g = LineageGraph::new();
    let report = g.stats(Some("x"));
    assert_eq!(report.total_nodes, 0);
    assert_eq!(report.total_edges, 0);
    assert!(report.nodes_by_kind.entries().is_empty());
    assert!(report.column_matches.is_empty());
}

#[test]
fn matches_are_shown_as_a_table() {
    let g = build_graph_with_columns();
    let report = g.stats(Some("email"));
    let text = matches_table(&report);
    assert!(text.contains("Matched Columns"));
    assert!(text.contains("raw.users"));
    assert!(text.contains("mart.customers"));
    assert!(text.contains("customers.sql"));
}
