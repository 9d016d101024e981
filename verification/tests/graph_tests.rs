use lineage_lite::error::LineageError;
use lineage_lite::graph::LineageGraph;
use lineage_lite::node::{EdgeRelation, LineageEdge, Node, NodeId, NodeKind};

fn make_node(name: &str) -> Node {
    Node {
        id: NodeId::from(name),
        kind: NodeKind::SqlTable,
        source_file: "test.sql".to_string(),
        columns: Vec::new(),
    }
}

fn make_edge(source: &str, target: &str) -> LineageEdge {
    LineageEdge {
        source: NodeId::from(source),
        target: NodeId::from(target),
        relation: EdgeRelation::SelectFrom,
        source_file: "test.sql".to_string(),
        line_number: None,
    }
}

fn ids(nodes: &[&Node]) -> Vec<String> {
    let mut v: Vec<String> = nodes.iter().map(|n| n.id.0.clone()).collect();
    v.sort();
    v
}

#[test]
fn test_add_node_and_get() {
    let mut g = LineageGraph::new();
    g.add_node(make_node("raw.orders"));
    assert!(g.get_node(&NodeId::from("raw.orders")).is_some());
    assert!(g.get_node(&NodeId::from("raw.payments")).is_none());
}

#[test]
fn test_duplicate_node_returns_same_index() {
    let mut g = LineageGraph::new();
    let idx1 = g.add_node(make_node("raw.orders"));
    let idx2 = g.add_node(make_node("raw.orders"));
    assert_eq!(idx1, idx2);
    assert_eq!(g.node_count(), 1);
}

#[test]
fn test_add_edge() {
    let mut g = LineageGraph::new();
    g.add_node(make_node("raw.orders"));
    g.add_node(make_node("stg.orders"));
    g.add_edge(make_edge("raw.orders", "stg.orders")).unwrap();
    assert_eq!(g.edge_count(), 1);
}

#[test]
fn test_edge_missing_node() {
    let mut g = LineageGraph::new();
    g.add_node(make_node("raw.orders"));
    let result = g.add_edge(make_edge("raw.orders", "missing"));
    assert!(result.is_err());
}

#[test]
fn test_downstream_bfs() {
    let mut g = LineageGraph::new();
    g.add_node(make_node("raw.orders"));
    g.add_node(make_node("stg.orders"));
    g.add_node(make_node("mart.orders"));
    g.add_node(make_node("mart.payments"));
    g.add_edge(make_edge("raw.orders", "stg.orders")).unwrap();
    g.add_edge(make_edge("stg.orders", "mart.orders")).unwrap();
    g.add_edge(make_edge("stg.orders", "mart.payments")).unwrap();

    let downstream = g.downstream(&NodeId::from("raw.orders"), None).unwrap();
    assert_eq!(downstream.len(), 3);

    let downstream_1 = g.downstream(&NodeId::from("raw.orders"), Some(1)).unwrap();
    assert_eq!(downstream_1.len(), 1);
    assert_eq!(downstream_1[0].id, NodeId::from("stg.orders"));
}

#[test]
fn test_upstream_bfs() {
    let mut g = LineageGraph::new();
    g.add_node(make_node("raw.orders"));
    g.add_node(make_node("raw.payments"));
    g.add_node(make_node("mart.orders"));
    g.add_edge(make_edge("raw.orders", "mart.orders")).unwrap();
    g.add_edge(make_edge("raw.payments", "mart.orders")).unwrap();

    let upstream = g.upstream(&NodeId::from("mart.orders"), None).unwrap();
    assert_eq!(upstream.len(), 2);
}

#[test]
fn test_impact_is_full_downstream() {
    let mut g = LineageGraph::new();
    g.add_node(make_node("a"));
    g.add_node(make_node("b"));
    g.add_node(make_node("c"));
    g.add_edge(make_edge("a", "b")).unwrap();
    g.add_edge(make_edge("b", "c")).unwrap();

    let impact = g.impact(&NodeId::from("a")).unwrap();
    assert_eq!(impact.len(), 2);
}

#[test]
fn node_id_is_lower_case() {
    assert_eq!(NodeId::from("RAW.Orders").0, "raw.orders");
    assert_eq!(NodeId::from("raw.orders").to_string(), "raw.orders");
}

#[test]
fn missing_source_is_named_before_missing_target() {
    let mut g = LineageGraph::default();
    let err = g.add_edge(make_edge("x", "y")).unwrap_err();
    assert!(matches!(err, LineageError::NodeNotFound(ref n) if n == "x"));
    g.add_node(make_node("x"));
    let err = g.add_edge(make_edge("x", "y")).unwrap_err();
    assert!(matches!(err, LineageError::NodeNotFound(ref n) if n == "y"));
    assert_eq!(g.edge_count(), 0);
}

#[test]
fn traversal_of_unknown_node_fails() {
    let g = LineageGraph::new();
    let err = g.downstream(&NodeId::from("nowhere"), None).unwrap_err();
    assert!(matches!(err, LineageError::NodeNotFound(ref n) if n == "nowhere"));
    assert!(g.upstream(&NodeId::from("nowhere"), Some(1)).is_err());
    assert!(g.impact(&NodeId::from("nowhere")).is_err());
}

#[test]
fn ensure_node_keeps_existing_node() {
    let mut g = LineageGraph::new();
    let a = g.add_node(Node {
        id: NodeId::from("a"),
        kind: NodeKind::DbtModel,
        source_file: "a.sql".to_string(),
        columns: vec!["id".to_string()],
    });
    let b = g.ensure_node(&NodeId::from("a"), NodeKind::SqlTable, "other.sql");
    assert_eq!(a, b);
    let n = g.get_node(&NodeId::from("a")).unwrap();
    assert_eq!(n.kind, NodeKind::DbtModel);
    assert_eq!(n.source_file, "a.sql");
    let c = g.ensure_node(&NodeId::from("b"), NodeKind::PythonEtl, "job.py");
    assert_eq!(c, 1);
    let m = g.get_node(&NodeId::from("b")).unwrap();
    assert_eq!(m.kind, NodeKind::PythonEtl);
    assert!(m.columns.is_empty());
}

#[test]
fn add_columns_lowercases_and_deduplicates() {
    let mut g = LineageGraph::new();
    g.add_node(make_node("t"));
    g.add_columns(&NodeId::from("t"), &["Id".to_string(), "AMOUNT".to_string(), "id".to_string()]);
    assert_eq!(g.get_node(&NodeId::from("t")).unwrap().columns, vec!["id", "amount"]);
    // adding the same columns again changes nothing
    g.add_columns(&NodeId::from("t"), &["Id".to_string(), "AMOUNT".to_string(), "id".to_string()]);
    assert_eq!(g.get_node(&NodeId::from("t")).unwrap().columns, vec!["id", "amount"]);
    // unknown node: nothing happens
    g.add_columns(&NodeId::from("u"), &["x".to_string()]);
    assert_eq!(g.node_count(), 1);
}

#[test]
fn downstream_and_upstream_are_dual() {
    // a -> b -> c, d -> c
    let mut g = LineageGraph::new();
    for n in ["a", "b", "c", "d"] {
        g.add_node(make_node(n));
    }
    g.add_edge(make_edge("a", "b")).unwrap();
    g.add_edge(make_edge("b", "c")).unwrap();
    g.add_edge(make_edge("d", "c")).unwrap();
    for x in ["a", "b", "c", "d"] {
        for y in ["a", "b", "c", "d"] {
            if x == y {
                continue;
            }
            let down = ids(&g.downstream(&NodeId::from(x), None).unwrap());
            let up = ids(&g.upstream(&NodeId::from(y), None).unwrap());
            assert_eq!(down.contains(&y.to_string()), up.contains(&x.to_string()));
        }
    }
}

#[test]
fn depth_limits_grow_monotonically() {
    let mut g = LineageGraph::new();
    for n in ["a", "b", "c", "d"] {
        g.add_node(make_node(n));
    }
    g.add_edge(make_edge("a", "b")).unwrap();
    g.add_edge(make_edge("b", "c")).unwrap();
    g.add_edge(make_edge("c", "d")).unwrap();
    let d0 = ids(&g.downstream(&NodeId::from("a"), Some(0)).unwrap());
    let d1 = ids(&g.downstream(&NodeId::from("a"), Some(1)).unwrap());
    let d2 = ids(&g.downstream(&NodeId::from("a"), Some(2)).unwrap());
    let all = ids(&g.downstream(&NodeId::from("a"), None).unwrap());
    assert!(d0.is_empty());
    assert_eq!(d1, vec!["b"]);
    assert_eq!(d2, vec!["b", "c"]);
    assert_eq!(all, vec!["b", "c", "d"]);
}

#[test]
fn cycles_are_walked_once() {
    let mut g = LineageGraph::new();
    g.add_node(make_node("a"));
    g.add_node(make_node("b"));
    g.add_edge(make_edge("a", "b")).unwrap();
    g.add_edge(make_edge("b", "a")).unwrap();
    g.add_edge(make_edge("a", "b")).unwrap();
    let down = g.downstream(&NodeId::from("a"), None).unwrap();
    assert_eq!(ids(&down), vec!["b"]);
}

#[test]
fn nodes_and_edges_in_insertion_order() {
    let mut g = LineageGraph::new();
    g.add_node(make_node("z"));
    g.add_node(make_node("a"));
    g.add_edge(make_edge("z", "a")).unwrap();
    let names: Vec<String> = g.nodes().iter().map(|n| n.id.0.clone()).collect();
    assert_eq!(names, vec!["z", "a"]);
    assert_eq!(g.edges()[0].source.0, "z");
    assert_eq!(EdgeRelation::DbtRef.label(), "dbt ref()");
    assert_eq!(NodeKind::PythonEtl.label(), "Python ETL");
}
