use vstd::prelude::*;
use vstd::string::StringExecFns;
use crate::chars::{join_sep, join_with, lemma_take_push};
use crate::dot::{dot_edges, dot_edges_text, dot_nodes, dot_nodes_text, edge_refs_view, node_refs_view};
use crate::node::{kind_label, relation_label, strings_view, EdgeView, LineageEdge, Node, NodeView};
use crate::query::{matches_view, MatchView, StatsReport};
use crate::text::copy_str;
use crate::trace::{rows_view, RowView, TraceReport};

verus! {

/// What `comfy_table` prints for a table with the `UTF8_FULL_CONDENSED` preset,
/// the header `header` and the rows `rows`, with no cell styling and content
/// arrangement left disabled (so that no terminal width comes into it).
pub uninterp spec fn condensed_table(header: Seq<Seq<char>>, rows: Seq<Seq<Seq<char>>>) -> Seq<char>;

/// Builds a `comfy_table::Table` (`Table::new`, `load_preset(UTF8_FULL_CONDENSED)`,
/// `set_header`, `add_rows`) and prints it with `to_string`. The text is named
/// `condensed_table` of the header and the rows.
#[verifier::external_body]
fn table_text(header: &Vec<&str>, rows: Vec<Vec<String>>) -> (r: String)
    ensures
        r@ == condensed_table(
            header@.map_values(|h: &str| h@),
            rows@.map_values(|row: Vec<String>| strings_view(row@)),
        ),
{
    let mut table = comfy_table::Table::new();
    table.load_preset(comfy_table::presets::UTF8_FULL_CONDENSED);
    table.set_header(header.clone());
    table.add_rows(rows);
    table.to_string()
}

/// The format in which lineage is printed.
#[derive(Debug, Clone, Copy, PartialEq, Eq, Structural)]
pub enum OutputFormat {
    Table,
    Dot,
    Html,
}

/// Renders lists of edges and of nodes as text.
pub trait Renderer {
    /// The text of a list of edges.
    spec fn edges_text(&self, edges: Seq<EdgeView>) -> Seq<char>;

    /// The text of a list of nodes.
    spec fn nodes_text(&self, nodes: Seq<NodeView>) -> Seq<char>;

    /// Renders a list of edges.
    fn render_edges(&self, edges: &[&LineageEdge]) -> (r: String)
        ensures
            r@ == self.edges_text(edge_refs_view(edges@));

    /// Renders a list of nodes.
    fn render_nodes(&self, nodes: &[&Node]) -> (r: String)
        ensures
            r@ == self.nodes_text(node_refs_view(nodes@));
}

/// Renders lineage as Graphviz DOT.
pub struct DotRenderer;

/// Renders lineage as a text table.
pub struct TableRenderer;

impl Renderer for DotRenderer {
    open spec fn edges_text(&self, edges: Seq<EdgeView>) -> Seq<char> {
        dot_edges_text(edges)
    }

    open spec fn nodes_text(&self, nodes: Seq<NodeView>) -> Seq<char> {
        dot_nodes_text(nodes)
    }

    fn render_edges(&self, edges: &[&LineageEdge]) -> (r: String) {
        dot_edges(edges)
    }

    fn render_nodes(&self, nodes: &[&Node]) -> (r: String) {
        dot_nodes(nodes)
    }
}

/// The table row of an edge: source, target, relation, file.
pub open spec fn edge_row(e: EdgeView) -> Seq<Seq<char>> {
    seq![e.source, e.target, relation_label(e.relation), e.source_file]
}

/// The table row of a node: identifier, kind, file.
pub open spec fn node_row(n: NodeView) -> Seq<Seq<char>> {
    seq![n.id, kind_label(n.kind), n.source_file]
}

/// The table of a list of edges, or a note that there is none.
pub open spec fn table_edges_text(es: Seq<EdgeView>) -> Seq<char> {
    if es.len() == 0 {
        "No edges found.\n"@
    } else {
        condensed_table(seq!["Source"@, "Target"@, "Relation"@, "File"@], es.map_values(|e: EdgeView| edge_row(e))) + "\n"@
    }
}

/// The table of a list of nodes, or a note that there is none.
pub open spec fn table_nodes_text(ns: Seq<NodeView>) -> Seq<char> {
    if ns.len() == 0 {
        "No nodes found.\n"@
    } else {
        condensed_table(seq!["Node"@, "Kind"@, "Source File"@], ns.map_values(|n: NodeView| node_row(n))) + "\n"@
    }
}

impl Renderer for TableRenderer {
    open spec fn edges_text(&self, edges: Seq<EdgeView>) -> Seq<char> {
        table_edges_text(edges)
    }

    open spec fn nodes_text(&self, nodes: Seq<NodeView>) -> Seq<char> {
        table_nodes_text(nodes)
    }

    fn render_edges(&self, edges: &[&LineageEdge]) -> (r: String) {
        if edges.len() == 0 {
            return copy_str("No edges found.\n");
        }
        let ghost es = edge_refs_view(edges@);
        let mut rows: Vec<Vec<String>> = Vec::new();
        let mut i: usize = 0;
        while i < edges.len()
            invariant
                es == edge_refs_view(edges@),
                i <= edges@.len(),
                rows@.map_values(|row: Vec<String>| strings_view(row@)) == es.map_values(|e: EdgeView| edge_row(e)).take(i as int),
            decreases edges@.len() - i,
        {
            let e = edges[i];
            let row = vec![
                copy_str(e.source.0.as_str()),
                copy_str(e.target.0.as_str()),
                copy_str(e.relation.label()),
                copy_str(e.source_file.as_str()),
            ];
            let ghost before = rows@;
            proof {
                assert(strings_view(row@) =~= edge_row(e@));
            }
            let ghost rv = row@;
            rows.push(row);
            proof {
                assert(rows@.map_values(|row: Vec<String>| strings_view(row@)) =~= before.map_values(|row: Vec<String>| strings_view(row@)).push(strings_view(rv)));
                assert(es.map_values(|e: EdgeView| edge_row(e)).take(i + 1) =~= es.map_values(|e: EdgeView| edge_row(e)).take(i as int).push(edge_row(es[i as int])));
                assert(rows@.map_values(|row: Vec<String>| strings_view(row@)) =~= es.map_values(|e: EdgeView| edge_row(e)).take(i + 1));
            }
            i = i + 1;
        }
        proof {
            assert(es.map_values(|e: EdgeView| edge_row(e)).take(i as int) =~= es.map_values(|e: EdgeView| edge_row(e)));
        }
        let header = vec!["Source", "Target", "Relation", "File"];
        proof {
            assert(header@.map_values(|h: &str| h@) =~= seq!["Source"@, "Target"@, "Relation"@, "File"@]);
        }
        let mut r = table_text(&header, rows);
        r.append("\n");
        r
    }

    fn render_nodes(&self, nodes: &[&Node]) -> (r: String) {
        if nodes.len() == 0 {
            return copy_str("No nodes found.\n");
        }
        let ghost ns = node_refs_view(nodes@);
        let mut rows: Vec<Vec<String>> = Vec::new();
        let mut i: usize = 0;
        while i < nodes.len()
            invariant
                ns == node_refs_view(nodes@),
                i <= nodes@.len(),
                rows@.map_values(|row: Vec<String>| strings_view(row@)) == ns.map_values(|n: NodeView| node_row(n)).take(i as int),
            decreases nodes@.len() - i,
        {
            let n = nodes[i];
            let row = vec![
                copy_str(n.id.0.as_str()),
                copy_str(n.kind.label()),
                copy_str(n.source_file.as_str()),
            ];
            proof {
                assert(strings_view(row@) =~= node_row(n@));
            }
            let ghost before = rows@;
            let ghost rv = row@;
            rows.push(row);
            proof {
                assert(rows@.map_values(|row: Vec<String>| strings_view(row@)) =~= before.map_values(|row: Vec<String>| strings_view(row@)).push(strings_view(rv)));
                assert(ns.map_values(|n: NodeView| node_row(n)).take(i + 1) =~= ns.map_values(|n: NodeView| node_row(n)).take(i as int).push(node_row(ns[i as int])));
                assert(rows@.map_values(|row: Vec<String>| strings_view(row@)) =~= ns.map_values(|n: NodeView| node_row(n)).take(i + 1));
            }
            i = i + 1;
        }
        proof {
            assert(ns.map_values(|n: NodeView| node_row(n)).take(i as int) =~= ns.map_values(|n: NodeView| node_row(n)));
        }
        let header = vec!["Node", "Kind", "Source File"];
        proof {
            assert(header@.map_values(|h: &str| h@) =~= seq!["Node"@, "Kind"@, "Source File"@]);
        }
        let mut r = table_text(&header, rows);
        r.append("\n");
        r
    }
}

/// The renderer of a format (an HTML page needs the whole graph and is rendered
/// apart; for it, as for `Table`, lists are rendered as tables).
pub enum FormatRenderer {
    Table(TableRenderer),
    Dot(DotRenderer),
}

impl Renderer for FormatRenderer {
    open spec fn edges_text(&self, edges: Seq<EdgeView>) -> Seq<char> {
        match self {
            FormatRenderer::Table(_) => table_edges_text(edges),
            FormatRenderer::Dot(_) => dot_edges_text(edges),
        }
    }

    open spec fn nodes_text(&self, nodes: Seq<NodeView>) -> Seq<char> {
        match self {
            FormatRenderer::Table(_) => table_nodes_text(nodes),
            FormatRenderer::Dot(_) => dot_nodes_text(nodes),
        }
    }

    fn render_edges(&self, edges: &[&LineageEdge]) -> (r: String) {
        match self {
            FormatRenderer::Table(t) => t.render_edges(edges),
            FormatRenderer::Dot(d) => d.render_edges(edges),
        }
    }

    fn render_nodes(&self, nodes: &[&Node]) -> (r: String) {
        match self {
            FormatRenderer::Table(t) => t.render_nodes(nodes),
            FormatRenderer::Dot(d) => d.render_nodes(nodes),
        }
    }
}

/// The renderer of a format: DOT for `Dot`, a table for `Table` and `Html`.
pub fn get_renderer(format: &OutputFormat) -> (r: FormatRenderer)
    ensures
        (*format == OutputFormat::Dot) == (r is Dot),
{
    match format {
        OutputFormat::Dot => FormatRenderer::Dot(DotRenderer),
        OutputFormat::Table => FormatRenderer::Table(TableRenderer),
        OutputFormat::Html => FormatRenderer::Table(TableRenderer),
    }
}
/// The table row of a column match: node, kind, the matched columns joined with
/// `, `, file.
pub open spec fn match_row(m: MatchView) -> Seq<Seq<char>> {
    seq![m.node_id, kind_label(m.kind), join_sep(m.matched_columns, ", "@), m.source_file]
}

/// The table of the column matches of a statistics report.
pub fn matches_table(report: &StatsReport) -> (r: String)
    ensures
        r@ == condensed_table(
            seq!["Node"@, "Kind"@, "Matched Columns"@, "Source File"@],
            matches_view(report.column_matches@).map_values(|m: MatchView| match_row(m)),
        ),
{
    let ghost ms = matches_view(report.column_matches@);
    let mut rows: Vec<Vec<String>> = Vec::new();
    let mut i: usize = 0;
    while i < report.column_matches.len()
        invariant
            ms == matches_view(report.column_matches@),
            i <= report.column_matches@.len(),
            rows@.map_values(|row: Vec<String>| strings_view(row@)) == ms.map_values(|m: MatchView| match_row(m)).take(i as int),
        decreases report.column_matches@.len() - i,
    {
        let m = &report.column_matches[i];
        let row = vec![
            copy_str(m.node_id.0.as_str()),
            copy_str(m.kind.label()),
            join_with(&m.matched_columns, ", "),
            copy_str(m.source_file.as_str()),
        ];
        proof {
            assert(strings_view(row@) =~= match_row(m@));
        }
        let ghost before = rows@;
        let ghost rv = row@;
        rows.push(row);
        proof {
            assert(rows@.map_values(|row: Vec<String>| strings_view(row@)) =~= before.map_values(|row: Vec<String>| strings_view(row@)).push(strings_view(rv)));
            lemma_take_push(ms.map_values(|m: MatchView| match_row(m)), i as int);
        }
        i = i + 1;
    }
    proof {
        assert(ms.map_values(|m: MatchView| match_row(m)).take(i as int) =~= ms.map_values(|m: MatchView| match_row(m)));
    }
    let header = vec!["Node", "Kind", "Matched Columns", "Source File"];
    proof {
        assert(header@.map_values(|h: &str| h@) =~= seq!["Node"@, "Kind"@, "Matched Columns"@, "Source File"@]);
    }
    table_text(&header, rows)
}

/// The table row of a trace row.
pub open spec fn trace_row(r: RowView) -> Seq<Seq<char>> {
    seq![r.0, r.1, r.2, r.3]
}

/// The table of a trace: column, transform, sources, expression.
pub fn trace_rows_table(report: &TraceReport) -> (r: String)
    ensures
        r@ == condensed_table(
            seq!["欄位"@, "轉換"@, "來源"@, "SQL 表達式"@],
            rows_view(report.rows@).map_values(|x: RowView| trace_row(x)),
        ),
{
    let ghost rs = rows_view(report.rows@);
    let mut rows: Vec<Vec<String>> = Vec::new();
    let mut i: usize = 0;
    while i < report.rows.len()
        invariant
            rs == rows_view(report.rows@),
            i <= report.rows@.len(),
            rows@.map_values(|row: Vec<String>| strings_view(row@)) == rs.map_values(|x: RowView| trace_row(x)).take(i as int),
        decreases report.rows@.len() - i,
    {
        let t = &report.rows[i];
        let row = vec![
            copy_str(t.column.as_str()),
            copy_str(t.transform.as_str()),
            copy_str(t.sources.as_str()),
            copy_str(t.expression.as_str()),
        ];
        proof {
            assert(strings_view(row@) =~= trace_row(rs[i as int]));
        }
        let ghost before = rows@;
        let ghost rv = row@;
        rows.push(row);
        proof {
            assert(rows@.map_values(|row: Vec<String>| strings_view(row@)) =~= before.map_values(|row: Vec<String>| strings_view(row@)).push(strings_view(rv)));
            lemma_take_push(rs.map_values(|x: RowView| trace_row(x)), i as int);
        }
        i = i + 1;
    }
    proof {
        assert(rs.map_values(|x: RowView| trace_row(x)).take(i as int) =~= rs.map_values(|x: RowView| trace_row(x)));
    }
    let header = vec!["欄位", "轉換", "來源", "SQL 表達式"];
    proof {
        assert(header@.map_values(|h: &str| h@) =~= seq!["欄位"@, "轉換"@, "來源"@, "SQL 表達式"@]);
    }
    table_text(&header, rows)
}

} // verus!
