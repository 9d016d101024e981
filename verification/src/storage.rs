use vstd::prelude::*;
use crate::graph::LineageGraph;
use crate::error::LineageError;
use crate::node::{kind_name, relation_name, strings_view, EdgeRelation, EdgeView, LineageEdge, Node, NodeId, NodeKind, NodeView};
use crate::assemble::has_view_id;
use crate::chars::lemma_take_push;
use crate::merge::{lemma_node_added, lemma_nodes_added_distinct, nodes_added};
use crate::text::{copy_str, str_eq, string_from_chars};

verus! {

/// The text `serde_json::to_string` gives for a list of strings: a JSON array of
/// string literals.
pub uninterp spec fn json_string_array(items: Seq<Seq<char>>) -> Seq<char>;

/// What `serde_json::from_str::<Vec<String>>` makes of a text: the list of strings
/// when the text is a JSON array of strings, nothing otherwise.
pub uninterp spec fn parsed_string_array(text: Seq<char>) -> Option<Seq<Seq<char>>>;

/// Serialises a list of strings with `serde_json::to_string`. The text is named
/// `json_string_array`; as serde_json round-trips strings, parsing it back gives
/// the same list.
#[verifier::external_body]
fn columns_to_json(columns: &Vec<String>) -> (r: String)
    ensures
        r@ == json_string_array(strings_view(columns@)),
        parsed_string_array(r@) == Some(strings_view(columns@)),
{
    serde_json::to_string(columns).unwrap_or_default()
}

/// Parses a text with `serde_json::from_str::<Vec<String>>`; the outcome is named
/// `parsed_string_array`.
#[verifier::external_body]
fn columns_from_json(text: &str) -> (r: Option<Vec<String>>)
    ensures
        match r {
            Some(v) => parsed_string_array(text@) == Some(strings_view(v@)),
            None => parsed_string_array(text@) is None,
        },
{
    serde_json::from_str::<Vec<String>>(text).ok()
}

/// The kind a stored kind name stands for; names that are not those of a kind
/// stand for `SqlTable`.
pub open spec fn parsed_kind(s: Seq<char>) -> NodeKind {
    if s == "SqlView"@ {
        NodeKind::SqlView
    } else if s == "DbtModel"@ {
        NodeKind::DbtModel
    } else if s == "DbtSource"@ {
        NodeKind::DbtSource
    } else if s == "PythonEtl"@ {
        NodeKind::PythonEtl
    } else {
        NodeKind::SqlTable
    }
}

/// The relation a stored relation name stands for; names that are not those of a
/// relation stand for `SelectFrom`.
pub open spec fn parsed_relation(s: Seq<char>) -> EdgeRelation {
    if s == "JoinOn"@ {
        EdgeRelation::JoinOn
    } else if s == "InsertInto"@ {
        EdgeRelation::InsertInto
    } else if s == "CreateTableAs"@ {
        EdgeRelation::CreateTableAs
    } else if s == "CteReference"@ {
        EdgeRelation::CteReference
    } else if s == "DbtRef"@ {
        EdgeRelation::DbtRef
    } else if s == "DbtSource"@ {
        EdgeRelation::DbtSource
    } else if s == "PythonReadWrite"@ {
        EdgeRelation::PythonReadWrite
    } else {
        EdgeRelation::SelectFrom
    }
}

/// Reads a stored kind name.
pub fn parse_node_kind(s: &str) -> (r: NodeKind)
    ensures
        r == parsed_kind(s@),
{
    if str_eq(s, "SqlView") {
        NodeKind::SqlView
    } else if str_eq(s, "DbtModel") {
        NodeKind::DbtModel
    } else if str_eq(s, "DbtSource") {
        NodeKind::DbtSource
    } else if str_eq(s, "PythonEtl") {
        NodeKind::PythonEtl
    } else {
        NodeKind::SqlTable
    }
}

/// Reads a stored relation name.
pub fn parse_edge_relation(s: &str) -> (r: EdgeRelation)
    ensures
        r == parsed_relation(s@),
{
    if str_eq(s, "JoinOn") {
        EdgeRelation::JoinOn
    } else if str_eq(s, "InsertInto") {
        EdgeRelation::InsertInto
    } else if str_eq(s, "CreateTableAs") {
        EdgeRelation::CreateTableAs
    } else if str_eq(s, "CteReference") {
        EdgeRelation::CteReference
    } else if str_eq(s, "DbtRef") {
        EdgeRelation::DbtRef
    } else if str_eq(s, "DbtSource") {
        EdgeRelation::DbtSource
    } else if str_eq(s, "PythonReadWrite") {
        EdgeRelation::PythonReadWrite
    } else {
        EdgeRelation::SelectFrom
    }
}

/// Reading back the stored name of a kind gives the kind.
pub proof fn lemma_kind_name_parses(k: NodeKind)
    ensures
        parsed_kind(kind_name(k)) == k,
{
    reveal_strlit("SqlTable");
    reveal_strlit("SqlView");
    reveal_strlit("DbtModel");
    reveal_strlit("DbtSource");
    reveal_strlit("PythonEtl");
    assert("SqlTable"@.len() == 8 && "SqlTable"@[0] == 'S' && "SqlTable"@[3] == 'T');
    assert("SqlView"@.len() == 7 && "SqlView"@[0] == 'S' && "SqlView"@[3] == 'V');
    assert("DbtModel"@.len() == 8 && "DbtModel"@[0] == 'D' && "DbtModel"@[3] == 'M');
    assert("DbtSource"@.len() == 9 && "DbtSource"@[0] == 'D' && "DbtSource"@[3] == 'S');
    assert("PythonEtl"@.len() == 9 && "PythonEtl"@[0] == 'P' && "PythonEtl"@[3] == 'h');
}

/// Reading back the stored name of a relation gives the relation.
pub proof fn lemma_relation_name_parses(r: EdgeRelation)
    ensures
        parsed_relation(relation_name(r)) == r,
{
    reveal_strlit("SelectFrom");
    reveal_strlit("JoinOn");
    reveal_strlit("InsertInto");
    reveal_strlit("CreateTableAs");
    reveal_strlit("CteReference");
    reveal_strlit("DbtRef");
    reveal_strlit("DbtSource");
    reveal_strlit("PythonReadWrite");
    assert("SelectFrom"@.len() == 10 && "SelectFrom"@[0] == 'S' && "SelectFrom"@[3] == 'e');
    assert("JoinOn"@.len() == 6 && "JoinOn"@[0] == 'J' && "JoinOn"@[3] == 'n');
    assert("InsertInto"@.len() == 10 && "InsertInto"@[0] == 'I' && "InsertInto"@[3] == 'e');
    assert("CreateTableAs"@.len() == 13 && "CreateTableAs"@[0] == 'C' && "CreateTableAs"@[3] == 'a');
    assert("CteReference"@.len() == 12 && "CteReference"@[0] == 'C' && "CteReference"@[3] == 'R');
    assert("DbtRef"@.len() == 6 && "DbtRef"@[0] == 'D' && "DbtRef"@[3] == 'R');
    assert("DbtSource"@.len() == 9 && "DbtSource"@[0] == 'D' && "DbtSource"@[3] == 'S');
    assert("PythonReadWrite"@.len() == 15 && "PythonReadWrite"@[0] == 'P' && "PythonReadWrite"@[3] == 'h');
}

/// A stored node: identifier, kind name, source file, columns as JSON.
#[derive(Debug)]
pub struct NodeRow {
    pub id: String,
    pub kind: String,
    pub source_file: String,
    pub columns_json: String,
}

/// A stored edge: source, target, relation name, source file, line.
#[derive(Debug)]
pub struct EdgeRow {
    pub source: String,
    pub target: String,
    pub relation: String,
    pub source_file: String,
    pub line_number: Option<usize>,
}

/// The abstract value of a stored node.
pub type NodeRowView = (Seq<char>, Seq<char>, Seq<char>, Seq<char>);

/// The abstract value of a stored edge.
pub type EdgeRowView = (Seq<char>, Seq<char>, Seq<char>, Seq<char>, Option<usize>);

/// The abstract values of stored nodes.
pub open spec fn node_rows_view(v: Seq<NodeRow>) -> Seq<NodeRowView> {
    v.map_values(|r: NodeRow| (r.id@, r.kind@, r.source_file@, r.columns_json@))
}

/// The abstract values of stored edges.
pub open spec fn edge_rows_view(v: Seq<EdgeRow>) -> Seq<EdgeRowView> {
    v.map_values(|r: EdgeRow| (r.source@, r.target@, r.relation@, r.source_file@, r.line_number))
}

/// How a node is stored.
pub open spec fn node_row_of(n: NodeView) -> NodeRowView {
    (n.id, kind_name(n.kind), n.source_file, json_string_array(n.columns))
}

/// How an edge is stored.
pub open spec fn edge_row_of(e: EdgeView) -> EdgeRowView {
    (e.source, e.target, relation_name(e.relation), e.source_file, e.line_number)
}

/// The node a stored node stands for: columns that do not parse are none.
pub open spec fn node_of_row(r: NodeRowView) -> NodeView {
    NodeView {
        id: r.0,
        kind: parsed_kind(r.1),
        source_file: r.2,
        columns: match parsed_string_array(r.3) {
            Some(c) => c,
            None => Seq::empty(),
        },
    }
}

/// The edge a stored edge stands for.
pub open spec fn edge_of_row(r: EdgeRowView) -> EdgeView {
    EdgeView { source: r.0, target: r.1, relation: parsed_relation(r.2), source_file: r.3, line_number: r.4 }
}

/// The key under which the store keeps one row per edge: source, target, relation.
pub open spec fn row_key(r: EdgeRowView) -> (Seq<char>, Seq<char>, Seq<char>) {
    (r.0, r.1, r.2)
}

/// Stored edges as the store keeps them: a row whose key an earlier row has is
/// dropped, so the first of each key stays, in order.
pub open spec fn first_rows(rows: Seq<EdgeRowView>) -> Seq<EdgeRowView>
    decreases rows.len(),
{
    if rows.len() == 0 {
        Seq::empty()
    } else {
        let d = first_rows(rows.drop_last());
        if exists|i: int| 0 <= i < rows.len() - 1 && row_key(rows[i]) == row_key(rows.last()) {
            d
        } else {
            d.push(rows.last())
        }
    }
}

/// Edges with the first of each source, target and relation kept, in order.
pub open spec fn first_edges(es: Seq<EdgeView>) -> Seq<EdgeView>
    decreases es.len(),
{
    if es.len() == 0 {
        Seq::empty()
    } else {
        let d = first_edges(es.drop_last());
        if exists|i: int|
            0 <= i < es.len() - 1 && (es[i].source, es[i].target, es[i].relation) == (
                es.last().source,
                es.last().target,
                es.last().relation,
            ) {
            d
        } else {
            d.push(es.last())
        }
    }
}

/// Some earlier edge of `edges` than the one at `k` is stored under the same key.
fn earlier_same_key(edges: &Vec<&LineageEdge>, k: usize) -> (r: bool)
    requires
        k < edges@.len(),
    ensures
        r == exists|j: int| 0 <= j < k && row_key(edge_row_of(edges@[j]@)) == row_key(edge_row_of(edges@[k as int]@)),
{
    let e = edges[k];
    let mut j: usize = 0;
    while j < k
        invariant
            j <= k,
            k < edges@.len(),
            e == edges@[k as int],
            forall|i: int| 0 <= i < j ==> row_key(edge_row_of(edges@[i]@)) != row_key(edge_row_of(e@)),
        decreases k - j,
    {
        let f = edges[j];
        proof {
            lemma_relation_name_parses(f.relation);
            lemma_relation_name_parses(e.relation);
        }
        if str_eq(f.source.0.as_str(), e.source.0.as_str()) && str_eq(f.target.0.as_str(), e.target.0.as_str())
            && f.relation == e.relation {
            proof {
                assert(row_key(edge_row_of(edges@[j as int]@)) == row_key(edge_row_of(e@)));
            }
            return true;
        }
        j = j + 1;
    }
    false
}

/// The rows a graph is stored as: one per node, and one per edge, in order, save
/// that an edge with the source, target and relation of an earlier one is dropped,
/// as the store keeps each such key once. Every stored column list parses back to
/// the node's columns.
pub fn graph_to_rows(graph: &LineageGraph) -> (r: (Vec<NodeRow>, Vec<EdgeRow>))
    requires
        graph.wf(),
    ensures
        node_rows_view(r.0@) == graph.node_views().map_values(|n: NodeView| node_row_of(n)),
        forall|i: int| 0 <= i < r.0@.len() ==> parsed_string_array(#[trigger] r.0@[i].columns_json@) == Some(graph.node_views()[i].columns),
        edge_rows_view(r.1@) == first_rows(graph.edge_seq().map_values(|e: (int, int, LineageEdge)| edge_row_of(e.2@))),
{
    let nodes = graph.nodes();
    let ghost ns = graph.node_views();
    let mut node_rows: Vec<NodeRow> = Vec::new();
    let mut i: usize = 0;
    while i < nodes.len()
        invariant
            graph.wf(),
            ns == graph.node_views(),
            nodes@.len() == graph.node_seq().len(),
            forall|j: int| 0 <= j < nodes@.len() ==> *nodes@[j] == graph.node_seq()[j],
            i <= nodes@.len(),
            node_rows_view(node_rows@) == ns.map_values(|n: NodeView| node_row_of(n)).take(i as int),
            forall|j: int| 0 <= j < i ==> parsed_string_array(#[trigger] node_rows@[j].columns_json@) == Some(ns[j].columns),
        decreases nodes@.len() - i,
    {
        let n = nodes[i];
        let row = NodeRow {
            id: copy_str(n.id.0.as_str()),
            kind: copy_str(n.kind.name()),
            source_file: copy_str(n.source_file.as_str()),
            columns_json: columns_to_json(&n.columns),
        };
        proof {
            assert(ns[i as int] == n@);
        }
        let ghost before = node_rows@;
        let ghost rv = (row.id@, row.kind@, row.source_file@, row.columns_json@);
        proof {
            assert(rv == node_row_of(n@));
        }
        node_rows.push(row);
        proof {
            assert(node_rows_view(node_rows@) =~= node_rows_view(before).push(rv));
            lemma_take_push(ns.map_values(|n: NodeView| node_row_of(n)), i as int);
            assert forall|j: int| 0 <= j < i + 1 implies parsed_string_array(#[trigger] node_rows@[j].columns_json@) == Some(ns[j].columns) by {
                if j < i {
                    assert(node_rows@[j] == before[j]);
                }
            }
        }
        i = i + 1;
    }
    proof {
        assert(ns.map_values(|n: NodeView| node_row_of(n)).take(i as int) =~= ns.map_values(|n: NodeView| node_row_of(n)));
    }
    let edges = graph.edges();
    let ghost es = graph.edge_seq().map_values(|e: (int, int, LineageEdge)| edge_row_of(e.2@));
    let mut edge_rows: Vec<EdgeRow> = Vec::new();
    let mut k: usize = 0;
    while k < edges.len()
        invariant
            graph.wf(),
            es == graph.edge_seq().map_values(|e: (int, int, LineageEdge)| edge_row_of(e.2@)),
            edges@.len() == graph.edge_seq().len(),
            forall|j: int| 0 <= j < edges@.len() ==> *edges@[j] == graph.edge_seq()[j].2,
            k <= edges@.len(),
            edge_rows_view(edge_rows@) == first_rows(es.take(k as int)),
        decreases edges@.len() - k,
    {
        let e = edges[k];
        proof {
            assert(es[k as int] == edge_row_of(e@));
            let pre = es.take(k + 1);
            assert(pre.drop_last() =~= es.take(k as int));
            assert(pre.last() == es[k as int]);
            assert forall|j: int| 0 <= j < k implies pre[j] == edge_row_of(edges@[j]@) by {
                assert(es[j] == edge_row_of(edges@[j]@));
            }
        }
        let dup = earlier_same_key(&edges, k);
        if !dup {
            let row = EdgeRow {
                source: copy_str(e.source.0.as_str()),
                target: copy_str(e.target.0.as_str()),
                relation: copy_str(e.relation.name()),
                source_file: copy_str(e.source_file.as_str()),
                line_number: e.line_number,
            };
            let ghost before = edge_rows@;
            let ghost rv = (row.source@, row.target@, row.relation@, row.source_file@, row.line_number);
            edge_rows.push(row);
            proof {
                assert(edge_rows_view(edge_rows@) =~= edge_rows_view(before).push(rv));
                let pre = es.take(k + 1);
                assert(!(exists|i: int| 0 <= i < pre.len() - 1 && row_key(pre[i]) == row_key(pre.last()))) by {
                    if exists|i: int| 0 <= i < pre.len() - 1 && row_key(pre[i]) == row_key(pre.last()) {
                        let i = choose|i: int| 0 <= i < pre.len() - 1 && row_key(pre[i]) == row_key(pre.last());
                        assert(row_key(edge_row_of(edges@[i]@)) == row_key(edge_row_of(edges@[k as int]@)));
                    }
                }
            }
        } else {
            proof {
                let pre = es.take(k + 1);
                let j = choose|j: int| 0 <= j < k && row_key(edge_row_of(edges@[j]@)) == row_key(edge_row_of(edges@[k as int]@));
                assert(row_key(pre[j]) == row_key(pre.last()));
            }
        }
        k = k + 1;
    }
    proof {
        assert(es.take(k as int) =~= es);
    }
    (node_rows, edge_rows)
}

/// Both endpoints of `e` are nodes of `ns`.
pub open spec fn endpoints_known(ns: Seq<NodeView>, e: EdgeView) -> bool {
    has_view_id(ns, e.source) && has_view_id(ns, e.target)
}

/// The nodes stored as `rows`, the first of each identifier kept.
pub open spec fn nodes_of_rows(rows: Seq<NodeRowView>) -> Seq<NodeView> {
    nodes_added(Seq::empty(), rows.map_values(|r: NodeRowView| node_of_row(r)))
}

/// The edges stored as `rows`.
pub open spec fn edges_of_rows(rows: Seq<EdgeRowView>) -> Seq<EdgeView> {
    rows.map_values(|r: EdgeRowView| edge_of_row(r))
}

proof fn lemma_has_id_view(g: &LineageGraph, id: Seq<char>)
    ensures
        g.has_id(id) <==> has_view_id(g.node_views(), id),
{
    let v = g.node_views();
    if g.has_id(id) {
        let i = choose|i: int| g.id_at(id, i);
        assert(v[i].id == id);
    }
    if has_view_id(v, id) {
        let i = choose|i: int| 0 <= i < v.len() && #[trigger] v[i].id == id;
        assert(g.id_at(id, i));
    }
}

/// Rebuilds a graph from stored rows: the nodes (a later node with the identifier
/// of an earlier one is dropped), then the edges. Fails with `NodeNotFound` at the
/// first edge with an endpoint that is not a node, naming its source, or else its
/// target.
pub fn graph_from_rows(nodes: &Vec<NodeRow>, edges: &Vec<EdgeRow>) -> (r: Result<LineageGraph, LineageError>)
    requires
        nodes@.len() < u32::MAX,
        edges@.len() < u32::MAX,
    ensures
        ({
            let ns = nodes_of_rows(node_rows_view(nodes@));
            let es = edges_of_rows(edge_rows_view(edges@));
            &&& (r is Ok <==> forall|k: int| 0 <= k < es.len() ==> endpoints_known(ns, #[trigger] es[k]))
            &&& (r matches Ok(g) ==> {
                &&& g.wf()
                &&& g.node_views() == ns
                &&& g.edge_seq().len() == es.len()
                &&& forall|k: int| 0 <= k < es.len() ==> (#[trigger] g.edge_seq()[k]).2@ == es[k]
            })
            &&& (r matches Err(e) ==> exists|k: int| {
                &&& 0 <= k < es.len()
                &&& (forall|j: int| 0 <= j < k ==> endpoints_known(ns, #[trigger] es[j]))
                &&& !endpoints_known(ns, es[k])
                &&& e matches LineageError::NodeNotFound(m)
                &&& m@ == if !has_view_id(ns, es[k].source) { es[k].source } else { es[k].target }
            })
        }),
{
    let ghost rows = node_rows_view(nodes@).map_values(|r: NodeRowView| node_of_row(r));
    let ghost ns = nodes_of_rows(node_rows_view(nodes@));
    let ghost es = edges_of_rows(edge_rows_view(edges@));
    let mut graph = LineageGraph::new();
    let mut i: usize = 0;
    proof {
        assert(rows.take(0) =~= Seq::<NodeView>::empty());
        assert(graph.node_views() =~= Seq::<NodeView>::empty());
    }
    while i < nodes.len()
        invariant
            graph.wf(),
            rows == node_rows_view(nodes@).map_values(|r: NodeRowView| node_of_row(r)),
            nodes@.len() < u32::MAX,
            i <= nodes@.len(),
            graph.node_seq().len() <= i,
            graph.edge_seq().len() == 0,
            graph.node_views() == nodes_added(Seq::empty(), rows.take(i as int)),
        decreases nodes@.len() - i,
    {
        let row = &nodes[i];
        let kind = parse_node_kind(row.kind.as_str());
        let columns = match columns_from_json(row.columns_json.as_str()) {
            Some(c) => c,
            None => Vec::new(),
        };
        let node = Node { id: NodeId(copy_str(row.id.as_str())), kind, source_file: copy_str(row.source_file.as_str()), columns };
        let ghost nv = node@;
        proof {
            assert(nv.columns =~= rows[i as int].columns);
            assert(nv == rows[i as int]);
        }
        let ghost g0 = graph;
        graph.add_node(node);
        proof {
            if !g0.has_id(nv.id) {
                assert(graph.node_seq().drop_last() =~= g0.node_seq());
            }
            lemma_node_added(&g0, &graph, nv);
            assert(rows.take(i + 1).drop_last() =~= rows.take(i as int));
            assert(rows.take(i + 1).last() == nv);
        }
        i = i + 1;
    }
    proof {
        assert(rows.take(i as int) =~= rows);
    }
    let mut k: usize = 0;
    while k < edges.len()
        invariant
            graph.wf(),
            ns == nodes_of_rows(node_rows_view(nodes@)),
            es == edges_of_rows(edge_rows_view(edges@)),
            graph.node_views() == ns,
            edges@.len() < u32::MAX,
            k <= edges@.len(),
            graph.edge_seq().len() == k,
            forall|j: int| 0 <= j < k ==> endpoints_known(ns, #[trigger] es[j]),
            forall|j: int| 0 <= j < k ==> (#[trigger] graph.edge_seq()[j]).2@ == es[j],
        decreases edges@.len() - k,
    {
        let row = &edges[k];
        let edge = LineageEdge {
            source: NodeId(copy_str(row.source.as_str())),
            target: NodeId(copy_str(row.target.as_str())),
            relation: parse_edge_relation(row.relation.as_str()),
            source_file: copy_str(row.source_file.as_str()),
            line_number: row.line_number,
        };
        let ghost ev = edge@;
        proof {
            assert(ev == es[k as int]);
            lemma_has_id_view(&graph, ev.source);
            lemma_has_id_view(&graph, ev.target);
        }
        let ghost g0 = graph;
        match graph.add_edge(edge) {
            Ok(()) => {},
            Err(e) => {
                proof {
                    assert(!endpoints_known(ns, es[k as int]));
                }
                return Err(e);
            },
        }
        proof {
            assert(graph.edge_seq()[k as int].2@ == ev);
            assert forall|j: int| 0 <= j < k implies (#[trigger] graph.edge_seq()[j]).2@ == es[j] by {
                assert(graph.edge_seq()[j] == g0.edge_seq()[j]);
            }
        }
        k = k + 1;
    }
    Ok(graph)
}

/// Where snapshots of a graph are stored: the path of an SQLite database file.
#[derive(Debug)]
pub struct SqliteStorage {
    path: String,
}

impl View for SqliteStorage {
    type V = Seq<char>;

    closed spec fn view(&self) -> Seq<char> {
        self.path@
    }
}

impl SqliteStorage {
    /// The storage at path `path`.
    pub fn new(path: &str) -> (r: Self)
        ensures
            r@ == path@,
    {
        SqliteStorage { path: copy_str(path) }
    }

    /// The path of the database file.
    pub fn path(&self) -> (r: &str)
        ensures
            r@ == self@,
    {
        self.path.as_str()
    }
}

/// The decimal digit of `d` (below ten).
pub open spec fn digit_char(d: nat) -> char {
    ((d + 48) as u8) as char
}

/// The decimal notation of `n`.
pub open spec fn decimal(n: nat) -> Seq<char>
    decreases n,
{
    if n < 10 {
        seq![digit_char(n)]
    } else {
        decimal(n / 10).push(digit_char(n % 10))
    }
}

/// The decimal notation of `n`.
pub fn decimal_string(n: u64) -> (r: String)
    ensures
        r@ == decimal(n as nat),
{
    let mut m: u64 = n;
    let mut rev: Vec<char> = Vec::new();
    proof {
        assert(rev@.reverse() =~= Seq::<char>::empty());
        assert(decimal(n as nat) =~= decimal(m as nat) + rev@.reverse());
    }
    while m >= 10
        invariant
            decimal(n as nat) == decimal(m as nat) + rev@.reverse(),
        decreases m,
    {
        let d = m % 10;
        let c = ((d as u8) + 48) as char;
        let ghost before = rev@;
        rev.push(c);
        proof {
            assert(c == digit_char(d as nat));
            assert(rev@.reverse() =~= seq![c] + before.reverse());
            assert(decimal(m as nat) == decimal((m / 10) as nat).push(digit_char((m % 10) as nat)));
            assert(decimal(m as nat) + before.reverse() =~= decimal((m / 10) as nat) + rev@.reverse());
        }
        m = m / 10;
    }
    let c = ((m as u8) + 48) as char;
    let ghost before = rev@;
    rev.push(c);
    proof {
        assert(c == digit_char(m as nat));
        assert(rev@.reverse() =~= seq![c] + before.reverse());
    }
    let mut out: Vec<char> = Vec::new();
    let mut i: usize = rev.len();
    while i > 0
        invariant
            i <= rev@.len(),
            out@ == rev@.reverse().take(rev@.len() - i),
        decreases i,
    {
        i = i - 1;
        out.push(rev[i]);
        proof {
            assert(out@ =~= rev@.reverse().take(rev@.len() - i));
        }
    }
    proof {
        assert(rev@.reverse().take(rev@.len() as int) =~= rev@.reverse());
    }
    string_from_chars(out.as_slice())
}

/// The seconds since the Unix epoch by the system clock
/// (`SystemTime::now().duration_since(UNIX_EPOCH)`, zero for a clock set before the
/// epoch). Nothing is stated of the value: it is the time.
#[verifier::external_body]
fn unix_time_secs() -> (r: u64) {
    std::time::SystemTime::now().duration_since(std::time::SystemTime::UNIX_EPOCH).unwrap_or_default().as_secs()
}

/// The current time as a timestamp: the seconds since the Unix epoch, in decimal.
pub fn chrono_now() -> (r: String)
    ensures
        exists|t: u64| r@ == decimal(t as nat),
{
    let t = unix_time_secs();
    decimal_string(t)
}

/// What is recorded of a scan with a snapshot.
#[derive(Debug)]
pub struct ScanMetadata {
    pub scanned_at: String,
    pub root_path: String,
    pub file_count: u64,
    pub node_count: usize,
    pub edge_count: usize,
}

impl Clone for ScanMetadata {
    fn clone(&self) -> (r: Self)
        ensures
            r.scanned_at@ == self.scanned_at@,
            r.root_path@ == self.root_path@,
            r.file_count == self.file_count,
            r.node_count == self.node_count,
            r.edge_count == self.edge_count,
    {
        ScanMetadata {
            scanned_at: self.scanned_at.clone(),
            root_path: self.root_path.clone(),
            file_count: self.file_count,
            node_count: self.node_count,
            edge_count: self.edge_count,
        }
    }
}

impl ScanMetadata {
    /// The record of a scan of `root_path` that read `file_count` files and built
    /// `graph`, timestamped now.
    pub fn new(root_path: &str, file_count: u64, graph: &LineageGraph) -> (r: Self)
        ensures
            exists|t: u64| r.scanned_at@ == decimal(t as nat),
            r.root_path@ == root_path@,
            r.file_count == file_count,
            r.node_count == graph.node_seq().len(),
            r.edge_count == graph.edge_seq().len(),
    {
        ScanMetadata {
            scanned_at: chrono_now(),
            root_path: copy_str(root_path),
            file_count,
            node_count: graph.node_count(),
            edge_count: graph.edge_count(),
        }
    }

    /// The record of a graph merged from `file_count` snapshots.
    pub fn merged(file_count: u64, graph: &LineageGraph) -> (r: Self)
        ensures
            r.scanned_at@ == "merged"@,
            r.root_path@ == "multiple"@,
            r.file_count == file_count,
            r.node_count == graph.node_seq().len(),
            r.edge_count == graph.edge_seq().len(),
    {
        ScanMetadata {
            scanned_at: copy_str("merged"),
            root_path: copy_str("multiple"),
            file_count,
            node_count: graph.node_count(),
            edge_count: graph.edge_count(),
        }
    }
}

/// Two edges have the same stored key exactly when they have the same source,
/// target and relation; and a stored edge reads back as the edge.
proof fn lemma_edge_row_key(a: EdgeView, b: EdgeView)
    ensures
        row_key(edge_row_of(a)) == row_key(edge_row_of(b)) <==> (a.source, a.target, a.relation) == (
            b.source,
            b.target,
            b.relation,
        ),
        edge_of_row(edge_row_of(a)) == a,
{
    lemma_relation_name_parses(a.relation);
    lemma_relation_name_parses(b.relation);
}

/// Reading back the rows the store keeps gives the first of each edge.
proof fn lemma_first_rows_edges(es: Seq<EdgeView>)
    ensures
        edges_of_rows(first_rows(es.map_values(|e: EdgeView| edge_row_of(e)))) == first_edges(es),
    decreases es.len(),
{
    if es.len() > 0 {
        let rows = es.map_values(|e: EdgeView| edge_row_of(e));
        assert(rows.drop_last() =~= es.drop_last().map_values(|e: EdgeView| edge_row_of(e)));
        lemma_first_rows_edges(es.drop_last());
        lemma_edge_row_key(es.last(), es.last());
        let rdup = exists|i: int| 0 <= i < rows.len() - 1 && row_key(rows[i]) == row_key(rows.last());
        let edup = exists|i: int|
            0 <= i < es.len() - 1 && (es[i].source, es[i].target, es[i].relation) == (
                es.last().source,
                es.last().target,
                es.last().relation,
            );
        if rdup {
            let i = choose|i: int| 0 <= i < rows.len() - 1 && row_key(rows[i]) == row_key(rows.last());
            lemma_edge_row_key(es[i], es.last());
        }
        if edup {
            let i = choose|i: int|
                0 <= i < es.len() - 1 && (es[i].source, es[i].target, es[i].relation) == (
                    es.last().source,
                    es.last().target,
                    es.last().relation,
                );
            lemma_edge_row_key(es[i], es.last());
            assert(row_key(rows[i]) == row_key(rows.last()));
        }
        let d = first_rows(rows.drop_last());
        if !rdup {
            assert(edges_of_rows(d.push(rows.last())) =~= edges_of_rows(d).push(es.last()));
        }
    }
}

/// Every row the store keeps is one of the rows it was given.
proof fn lemma_first_rows_from(rows: Seq<EdgeRowView>)
    ensures
        forall|k: int| 0 <= k < first_rows(rows).len() ==> exists|i: int| 0 <= i < rows.len() && #[trigger] first_rows(rows)[k] == rows[i],
    decreases rows.len(),
{
    if rows.len() > 0 {
        lemma_first_rows_from(rows.drop_last());
        let d = first_rows(rows.drop_last());
        assert forall|k: int| 0 <= k < first_rows(rows).len() implies exists|i: int| 0 <= i < rows.len() && #[trigger] first_rows(rows)[k] == rows[i] by {
            if k < d.len() {
                let i = choose|i: int| 0 <= i < rows.drop_last().len() && #[trigger] d[k] == rows.drop_last()[i];
                assert(first_rows(rows)[k] == d[k]);
                assert(rows[i] == rows.drop_last()[i]);
            } else {
                assert(first_rows(rows)[k] == rows[rows.len() - 1]);
            }
        }
    }
}

/// Storing a graph as rows and rebuilding it from them gives back its nodes and
/// the first of its edges for each source, target and relation (the store keeps
/// each such edge once), and every stored edge finds its endpoints among the
/// stored nodes (so that rebuilding succeeds).
pub proof fn law_rows_round_trip(g: &LineageGraph, node_rows: Seq<NodeRowView>, edge_rows: Seq<EdgeRowView>)
    requires
        g.wf(),
        node_rows == g.node_views().map_values(|n: NodeView| node_row_of(n)),
        forall|i: int| 0 <= i < node_rows.len() ==> parsed_string_array(#[trigger] node_rows[i].3) == Some(g.node_views()[i].columns),
        edge_rows == first_rows(g.edge_seq().map_values(|e: (int, int, LineageEdge)| edge_row_of(e.2@))),
    ensures
        nodes_of_rows(node_rows) == g.node_views(),
        edges_of_rows(edge_rows) == first_edges(g.edge_seq().map_values(|e: (int, int, LineageEdge)| e.2@)),
        forall|k: int| 0 <= k < edge_rows.len() ==> endpoints_known(nodes_of_rows(node_rows), #[trigger] edges_of_rows(edge_rows)[k]),
{
    let ns = g.node_views();
    assert forall|i: int| 0 <= i < ns.len() implies node_of_row(#[trigger] node_rows[i]) == ns[i] by {
        lemma_kind_name_parses(ns[i].kind);
        assert(node_rows[i] == node_row_of(ns[i]));
    }
    assert(node_rows.map_values(|r: NodeRowView| node_of_row(r)) =~= ns);
    assert forall|a: int, b: int| 0 <= a < b < ns.len() implies ns[a].id != ns[b].id by {
        assert(g.node_seq()[a].id@ != g.node_seq()[b].id@);
    }
    lemma_nodes_added_distinct(ns);
    let es = g.edge_seq().map_values(|e: (int, int, LineageEdge)| e.2@);
    let all_rows = g.edge_seq().map_values(|e: (int, int, LineageEdge)| edge_row_of(e.2@));
    assert(all_rows =~= es.map_values(|e: EdgeView| edge_row_of(e)));
    lemma_first_rows_edges(es);
    lemma_first_rows_from(all_rows);
    assert forall|k: int| 0 <= k < edge_rows.len() implies endpoints_known(nodes_of_rows(node_rows), #[trigger] edges_of_rows(edge_rows)[k]) by {
        let i = choose|i: int| 0 <= i < all_rows.len() && #[trigger] edge_rows[k] == all_rows[i];
        assert(g.edge_ok(i));
        let e = g.edge_seq()[i];
        lemma_edge_row_key(es[i], es[i]);
        assert(edges_of_rows(edge_rows)[k] == edge_of_row(all_rows[i]));
        assert(edges_of_rows(edge_rows)[k] == es[i]);
        assert(ns[e.0].id == es[i].source);
        assert(ns[e.1].id == es[i].target);
    }
}

} // verus!
