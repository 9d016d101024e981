use lineage_lite::graph::LineageGraph;
use lineage_lite::html::{escape_js, render_graph_html, write_html};
use lineage_lite::node::{ColumnLineage, EdgeRelation, LineageEdge, Node, NodeId, NodeKind, SourceColumn, TransformKind};
use lineage_lite::output::{get_renderer, DotRenderer, OutputFormat, Renderer, TableRenderer};

#[test]
fn test_dot_edges_output() {
    let edge = LineageEdge {
        source: NodeId::from("raw.orders"),
        target: NodeId::from("stg.orders"),
        relation: EdgeRelation::CreateTableAs,
        source_file: "test.sql".to_string(),
        line_number: None,
    };

    let renderer = DotRenderer;
    let output = renderer.render_edges(&[&edge]);

    assert!(output.contains("digraph lineage"));
    assert!(output.contains("\"raw.orders\" -> \"stg.orders\""));
    assert!(output.contains("CREATE TABLE AS"));
}

fn edge(s: &str, t: &str) -> LineageEdge {
    LineageEdge {
        source: NodeId::from(s),
        target: NodeId::from(t),
        relation: EdgeRelation::JoinOn,
        source_file: "f.sql".to_string(),
        line_number: Some(3),
    }
}

#[test]
fn dot_declares_each_node_once() {
    let a = edge("a", "b");
    let b = edge("b", "c");
    let text = DotRenderer.render_edges(&[&a, &b]);
    let expected = "digraph lineage {\n    rankdir=LR;\n    node [shape=box, style=filled, fillcolor=lightyellow];\n\n    \"a\" [label=\"a\"];\n    \"b\" [label=\"b\"];\n    \"c\" [label=\"c\"];\n\n    \"a\" -> \"b\" [label=\"JOIN\"];\n    \"b\" -> \"c\" [label=\"JOIN\"];\n}\n";
    assert_eq!(text, expected);
}

#[test]
fn dot_nodes_carry_their_kind() {
    let n = Node {
        id: NodeId::from("mart.x"),
        kind: NodeKind::DbtModel,
        source_file: "x.sql".to_string(),
        columns: Vec::new(),
    };
    let text = DotRenderer.render_nodes(&[&n]);
    assert!(text.contains("    \"mart.x\" [label=\"mart.x\\n(dbt Model)\"];\n"));
    assert!(text.ends_with("}\n"));
}

#[test]
fn table_renderer_notes_empty_lists() {
    assert_eq!(TableRenderer.render_edges(&[]), "No edges found.\n");
    assert_eq!(TableRenderer.render_nodes(&[]), "No nodes found.\n");
}

#[test]
fn table_renderer_lists_edges() {
    let e = edge("raw.a", "mart.b");
    let text = TableRenderer.render_edges(&[&e]);
    assert!(text.contains("Source"));
    assert!(text.contains("raw.a"));
    assert!(text.contains("mart.b"));
    assert!(text.contains("JOIN"));
    assert!(text.contains("f.sql"));
    assert!(text.ends_with('\n'));
}

#[test]
fn renderer_by_format() {
    let e = edge("a", "b");
    assert!(get_renderer(&OutputFormat::Dot).render_edges(&[&e]).starts_with("digraph lineage"));
    assert!(!get_renderer(&OutputFormat::Table).render_edges(&[&e]).starts_with("digraph"));
    assert!(!get_renderer(&OutputFormat::Html).render_edges(&[&e]).starts_with("digraph"));
}

#[test]
fn escape_js_escapes_quotes_backslashes_and_newlines() {
    assert_eq!(escape_js("a\"b\\c\nd"), "a\\\"b\\\\c\\nd");
    assert_eq!(escape_js("plain"), "plain");
    assert!(!escape_js("x\ny\n").contains('\n'));
}

#[test]
fn html_page_embeds_json() {
    let mut g = LineageGraph::new();
    g.add_node(Node { id: NodeId::from("a"), kind: NodeKind::SqlTable, source_file: "a.sql".into(), columns: vec![] });
    g.add_node(Node { id: NodeId::from("b"), kind: NodeKind::DbtModel, source_file: "b.sql".into(), columns: vec![] });
    g.add_edge(edge("a", "b")).unwrap();
    let lineage = vec![ColumnLineage {
        target_table: "b".into(),
        target_column: "x".into(),
        source_columns: vec![
            SourceColumn { table: Some("a".into()), column: "y".into() },
            SourceColumn { table: None, column: "z".into() },
        ],
        transform: TransformKind::Aggregation("SUM".into()),
        expression: "SUM(\"y\")".into(),
    }];
    let page = render_graph_html(&g, &lineage);
    assert!(page.starts_with("<!DOCTYPE html>"));
    assert!(page.contains(r#"const nodesData = [{"id":"a","kind":"SQL Table"},{"id":"b","kind":"dbt Model"}];"#));
    assert!(page.contains(r#"const edgesData = [{"source":"a","target":"b","relation":"JOIN"}];"#));
    assert!(page.contains(r#"{"table":"b","column":"x","transform":"SUM()","sources":[{"table":"a","column":"y"},{"table":null,"column":"z"}],"expr":"SUM(\"y\")"}"#));
    assert!(page.ends_with("</html>"));
}

#[test]
fn html_template_places_the_lists() {
    let page = write_html("N", "E", "L");
    assert!(page.contains("const nodesData = [N];\nconst edgesData = [E];\nconst colLineage = [L];"));
}

fn read_back(t: &str) -> String {
    let cs: Vec<char> = t.chars().collect();
    let mut out = String::new();
    let mut i = 0;
    while i < cs.len() {
        if cs[i] == '\\' && i + 1 < cs.len() {
            out.push(if cs[i + 1] == 'n' { '\n' } else { cs[i + 1] });
            i += 2;
        } else {
            out.push(cs[i]);
            i += 1;
        }
    }
    out
}

#[test]
fn escape_js_reads_back_to_the_original() {
    for s in ["a\\b\"c\nd", "\\n", "\"\"", "", "line\\\nbreak"] {
        assert_eq!(read_back(&escape_js(s)), s);
    }
}

#[test]
fn escape_js_quotes_follow_an_odd_run_of_backslashes() {
    for s in ["a\\b\"c\nd", "\\\"", "\"\\\\\"", "x\\", "\"\"\""] {
        let t: Vec<char> = escape_js(s).chars().collect();
        for (k, c) in t.iter().enumerate() {
            if *c == '"' {
                let run = t[..k].iter().rev().take_while(|x| **x == '\\').count();
                assert_eq!(run % 2, 1, "quote at {k} in {:?}", t);
            }
        }
    }
    assert_eq!(escape_js("a\\b\"c\nd"), "a\\\\b\\\"c\\nd");
}
