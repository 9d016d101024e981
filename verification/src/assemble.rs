use vstd::prelude::*;
use crate::colmap::ColumnMap;
use crate::graph::{merge_columns, LineageGraph};
use crate::node::{strings_view, ColumnLineage, EdgeRelation, EdgeView, LineageEdge, NodeId, NodeKind, NodeView};
use crate::scanner::ScanResult;
use crate::sql::edges_view;
use crate::text::lowercase;

verus! {

/// The kinds given to the source and the target of an edge with relation `rel`
/// when the graph has no node for them yet.
pub open spec fn inferred_kinds(rel: EdgeRelation) -> (NodeKind, NodeKind) {
    match rel {
        EdgeRelation::DbtRef => (NodeKind::DbtModel, NodeKind::DbtModel),
        EdgeRelation::DbtSource => (NodeKind::DbtSource, NodeKind::DbtModel),
        EdgeRelation::PythonReadWrite => (NodeKind::SqlTable, NodeKind::PythonEtl),
        _ => (NodeKind::SqlTable, NodeKind::SqlTable),
    }
}

/// Infers the kinds of the source and the target of an edge from its relation.
pub fn infer_node_kinds(relation: &EdgeRelation) -> (r: (NodeKind, NodeKind))
    ensures
        r == inferred_kinds(*relation),
{
    match relation {
        EdgeRelation::DbtRef => (NodeKind::DbtModel, NodeKind::DbtModel),
        EdgeRelation::DbtSource => (NodeKind::DbtSource, NodeKind::DbtModel),
        EdgeRelation::PythonReadWrite => (NodeKind::SqlTable, NodeKind::PythonEtl),
        EdgeRelation::CreateTableAs | EdgeRelation::InsertInto => (NodeKind::SqlTable, NodeKind::SqlTable),
        EdgeRelation::SelectFrom | EdgeRelation::JoinOn | EdgeRelation::CteReference => (NodeKind::SqlTable, NodeKind::SqlTable),
    }
}

/// Some node of `ns` has identifier `id`.
pub open spec fn has_view_id(ns: Seq<NodeView>, id: Seq<char>) -> bool {
    exists|i: int| 0 <= i < ns.len() && #[trigger] ns[i].id == id
}

/// `ns` after making sure a node `id` exists: unchanged when one does, else with a
/// new node of that kind and source file and no columns at the end.
pub open spec fn ensure_view(ns: Seq<NodeView>, id: Seq<char>, kind: NodeKind, file: Seq<char>) -> Seq<NodeView> {
    if has_view_id(ns, id) {
        ns
    } else {
        ns.push(NodeView { id, kind, source_file: file, columns: Seq::empty() })
    }
}

/// `ns` with nodes made for the endpoints of the edges `es` that it lacks, edge
/// after edge, source before target, each kind inferred from the edge's relation.
pub open spec fn endpoints_from(ns: Seq<NodeView>, es: Seq<EdgeView>) -> Seq<NodeView>
    decreases es.len(),
{
    if es.len() == 0 {
        ns
    } else {
        let m = endpoints_from(ns, es.drop_last());
        let e = es.last();
        let kinds = inferred_kinds(e.relation);
        ensure_view(ensure_view(m, e.source, kinds.0, e.source_file), e.target, kinds.1, e.source_file)
    }
}

/// The nodes made for the endpoints of the edges `es`.
pub open spec fn endpoint_nodes(es: Seq<EdgeView>) -> Seq<NodeView> {
    endpoints_from(Seq::empty(), es)
}

/// `ns` with the columns `cols` merged into the node with identifier `id`.
pub open spec fn with_columns(ns: Seq<NodeView>, id: Seq<char>, cols: Seq<Seq<char>>) -> Seq<NodeView> {
    ns.map_values(|n: NodeView| if n.id == id { NodeView { columns: merge_columns(n.columns, cols), ..n } } else { n })
}

/// `ns` with the columns of each table of `keys` (in this order) merged into the
/// node whose identifier is the table's name in lower case.
pub open spec fn columns_applied(ns: Seq<NodeView>, keys: Seq<Seq<char>>, m: Map<Seq<char>, Seq<Seq<char>>>) -> Seq<NodeView>
    decreases keys.len(),
{
    if keys.len() == 0 {
        ns
    } else {
        with_columns(columns_applied(ns, keys.drop_last(), m), lowercase(keys.last()), m[keys.last()])
    }
}

/// The graph built from a scan, with what the scan found besides.
pub struct BuildResult {
    pub graph: LineageGraph,
    pub files_scanned: u64,
    pub col_lineage: Vec<ColumnLineage>,
}

/// After `ensure_node`, the node values are `ensure_view` of those before.
pub(crate) proof fn lemma_ensured(g0: &LineageGraph, g1: &LineageGraph, id: Seq<char>, kind: NodeKind, file: Seq<char>)
    requires
        g0.wf(),
        g0.has_id(id) ==> g1.node_seq() == g0.node_seq(),
        !g0.has_id(id) ==> {
            &&& g1.node_seq().len() == g0.node_seq().len() + 1
            &&& g1.node_seq().drop_last() == g0.node_seq()
            &&& g1.node_seq().last()@ == NodeView { id, kind, source_file: file, columns: Seq::empty() }
        },
    ensures
        g1.node_views() == ensure_view(g0.node_views(), id, kind, file),
        forall|x: Seq<char>| g0.has_id(x) ==> g1.has_id(x),
{
    let v0 = g0.node_views();
    assert(g0.has_id(id) <==> has_view_id(v0, id)) by {
        if g0.has_id(id) {
            let i = choose|i: int| g0.id_at(id, i);
            assert(v0[i].id == id);
        }
        if has_view_id(v0, id) {
            let i = choose|i: int| 0 <= i < v0.len() && #[trigger] v0[i].id == id;
            assert(g0.id_at(id, i));
        }
    }
    if !g0.has_id(id) {
        assert(g1.node_views() =~= v0.push(NodeView { id, kind, source_file: file, columns: Seq::empty() })) by {
            assert forall|i: int| 0 <= i < v0.len() implies g1.node_views()[i] == v0[i] by {
                assert(g1.node_seq()[i] == g1.node_seq().drop_last()[i]);
            }
        }
    }
    assert forall|x: Seq<char>| g0.has_id(x) implies g1.has_id(x) by {
        let i = choose|i: int| g0.id_at(x, i);
        if !g0.has_id(id) {
            assert(g1.node_seq()[i] == g1.node_seq().drop_last()[i]);
        }
        assert(g1.id_at(x, i));
    }
}

/// After `add_columns`, the node values are `with_columns` of those before, and
/// every identifier stays where it was.
proof fn lemma_columns_added(g0: &LineageGraph, g1: &LineageGraph, id: Seq<char>, cols: Seq<Seq<char>>)
    requires
        g0.wf(),
        !g0.has_id(id) ==> g1.node_seq() == g0.node_seq(),
        g0.has_id(id) ==> {
            let i = g0.index_of(id);
            let old_node = g0.node_seq()[i]@;
            &&& g1.node_seq().len() == g0.node_seq().len()
            &&& forall|j: int| 0 <= j < g0.node_seq().len() && j != i
                ==> g1.node_seq()[j] == g0.node_seq()[j]
            &&& g1.node_seq()[i]@ == NodeView {
                columns: merge_columns(old_node.columns, cols),
                ..old_node
            }
        },
    ensures
        g1.node_views() == with_columns(g0.node_views(), id, cols),
        g1.node_seq().len() == g0.node_seq().len(),
        forall|j: int| 0 <= j < g0.node_seq().len() ==> #[trigger] g1.node_seq()[j].id@ == g0.node_seq()[j].id@,
{
    let v0 = g0.node_views();
    if g0.has_id(id) {
        let i = g0.index_of(id);
        assert(g0.id_at(id, i));
        assert forall|j: int| 0 <= j < v0.len() implies #[trigger] g1.node_views()[j] == with_columns(v0, id, cols)[j] by {
            if j != i {
                assert(g0.node_seq()[j].id@ != g0.node_seq()[i].id@) by {
                    if j < i {
                        assert(g0.node_seq()[j].id@ != g0.node_seq()[i].id@);
                    } else {
                        assert(g0.node_seq()[i].id@ != g0.node_seq()[j].id@);
                    }
                }
            }
        }
        assert(g1.node_views() =~= with_columns(v0, id, cols));
        assert forall|j: int| 0 <= j < g0.node_seq().len() implies #[trigger] g1.node_seq()[j].id@ == g0.node_seq()[j].id@ by {
            if j == i {
                assert(g1.node_seq()[i]@.id == g0.node_seq()[i]@.id);
            }
        }
    } else {
        assert forall|j: int| 0 <= j < v0.len() implies #[trigger] g1.node_views()[j] == with_columns(v0, id, cols)[j] by {
            if v0[j].id == id {
                assert(g0.id_at(id, j));
            }
        }
        assert(g1.node_views() =~= with_columns(v0, id, cols));
    }
}

/// Builds the lineage graph of a scan: first a node for each endpoint of each
/// edge (its kind inferred from the edge's relation, its source file that of the
/// edge), then the edges, then the columns the scan found for each table merged
/// into the node of that name.
pub fn build_graph(scan: ScanResult) -> (r: BuildResult)
    requires
        scan.column_map.wf(),
        2 * scan.edges@.len() < u32::MAX,
    ensures
        r.graph.wf(),
        r.graph.node_views() == columns_applied(
            endpoint_nodes(edges_view(scan.edges@)),
            scan.column_map.keys(),
            scan.column_map@,
        ),
        r.graph.edge_seq().len() == scan.edges@.len(),
        forall|k: int| 0 <= k < scan.edges@.len() ==> {
            let e = #[trigger] r.graph.edge_seq()[k];
            &&& e.2@ == scan.edges@[k]@
            &&& e.0 == r.graph.index_of(scan.edges@[k].source@)
            &&& e.1 == r.graph.index_of(scan.edges@[k].target@)
        },
        r.files_scanned == scan.files_scanned,
        r.col_lineage@ == scan.col_lineage@,
{
    let ScanResult { edges, files_scanned, root: _, column_map, col_lineage } = scan;
    let ghost es = edges_view(edges@);
    let mut graph = LineageGraph::new();
    let mut i: usize = 0;
    proof {
        assert(es.take(0) =~= Seq::<EdgeView>::empty());
        assert(graph.node_views() =~= Seq::<NodeView>::empty());
    }
    while i < edges.len()
        invariant
            graph.wf(),
            es == edges_view(edges@),
            i <= edges@.len(),
            2 * edges@.len() < u32::MAX,
            graph.node_seq().len() <= 2 * i,
            graph.edge_seq().len() == 0,
            graph.node_views() == endpoint_nodes(es.take(i as int)),
            forall|j: int| 0 <= j < i ==> graph.has_id(#[trigger] es[j].source) && graph.has_id(es[j].target),
        decreases edges@.len() - i,
    {
        let kinds = infer_node_kinds(&edges[i].relation);
        let ghost g0 = graph;
        let ghost e = es[i as int];
        graph.ensure_node(&edges[i].source, kinds.0, edges[i].source_file.as_str());
        proof {
            lemma_ensured(&g0, &graph, e.source, kinds.0, e.source_file);
        }
        let ghost g1 = graph;
        graph.ensure_node(&edges[i].target, kinds.1, edges[i].source_file.as_str());
        proof {
            lemma_ensured(&g1, &graph, e.target, kinds.1, e.source_file);
            assert(es.take(i + 1).drop_last() =~= es.take(i as int));
            assert(graph.has_id(e.source));
            assert(graph.has_id(e.target));
            assert forall|j: int| 0 <= j < i + 1 implies graph.has_id(#[trigger] es[j].source) && graph.has_id(es[j].target) by {
                if j < i {
                    assert(g0.has_id(es[j].source) && g0.has_id(es[j].target));
                    assert(g1.has_id(es[j].source) && g1.has_id(es[j].target));
                }
            }
        }
        i = i + 1;
    }
    proof {
        assert(es.take(i as int) =~= es);
    }
    let ghost g_nodes = graph;
    let mut k: usize = 0;
    while k < edges.len()
        invariant
            graph.wf(),
            g_nodes.wf(),
            es == edges_view(edges@),
            k <= edges@.len(),
            2 * edges@.len() < u32::MAX,
            graph.node_seq() == g_nodes.node_seq(),
            graph.edge_seq().len() == k,
            forall|j: int| 0 <= j < edges@.len() ==> g_nodes.has_id(#[trigger] es[j].source) && g_nodes.has_id(es[j].target),
            forall|j: int| 0 <= j < k ==> (#[trigger] graph.edge_seq()[j]).2@ == edges@[j]@,
        decreases edges@.len() - k,
    {
        let edge = edges[k].clone();
        proof {
            assert(es[k as int] == edges@[k as int]@);
            assert(g_nodes.has_id(es[k as int].source));
            assert(g_nodes.has_id(es[k as int].target));
            let a = choose|a: int| g_nodes.id_at(es[k as int].source, a);
            let b = choose|b: int| g_nodes.id_at(es[k as int].target, b);
            assert(graph.id_at(edge.source@, a));
            assert(graph.id_at(edge.target@, b));
        }
        let added = graph.add_edge(edge);
        proof {
            assert(added is Ok);
        }
        k = k + 1;
    }
    let ghost g_edges = graph;
    let entries = column_map.entries();
    let ghost keys = column_map.keys();
    let ghost cmap = column_map@;
    let ghost base = graph.node_views();
    let mut c: usize = 0;
    proof {
        assert(keys.take(0) =~= Seq::<Seq<char>>::empty());
        assert forall|j: int| #![trigger entries@[j]] 0 <= j < entries@.len() implies cmap.contains_key(entries@[j].0@) && cmap[entries@[j].0@] == strings_view(entries@[j].1@) by {
            assert(column_map@.contains_key(entries@[j].0@));
        }
    }
    while c < entries.len()
        invariant
            graph.wf(),
            column_map.wf(),
            entries@.map_values(|e: (String, Vec<String>)| e.0@) == keys,
            forall|j: int| #![trigger entries@[j]] 0 <= j < entries@.len() ==> cmap.contains_key(entries@[j].0@) && cmap[entries@[j].0@] == strings_view(entries@[j].1@),
            c <= entries@.len(),
            graph.edge_seq() == g_edges.edge_seq(),
            graph.node_seq().len() == g_edges.node_seq().len(),
            forall|j: int| 0 <= j < g_edges.node_seq().len() ==> #[trigger] graph.node_seq()[j].id@ == g_edges.node_seq()[j].id@,
            graph.node_views() == columns_applied(base, keys.take(c as int), cmap),
        decreases entries@.len() - c,
    {
        let id = NodeId::from(entries[c].0.as_str());
        let ghost g0 = graph;
        graph.add_columns(&id, entries[c].1.as_slice());
        proof {
            lemma_columns_added(&g0, &graph, id@, strings_view(entries@[c as int].1@));
            assert(keys.take(c + 1).drop_last() =~= keys.take(c as int));
            assert(keys[c as int] == entries@[c as int].0@);
        }
        c = c + 1;
    }
    proof {
        assert(keys.take(c as int) =~= keys);
        assert forall|j: int| 0 <= j < edges@.len() implies {
            let e = #[trigger] graph.edge_seq()[j];
            &&& e.2@ == edges@[j]@
            &&& e.0 == graph.index_of(edges@[j].source@)
            &&& e.1 == graph.index_of(edges@[j].target@)
        } by {
            let e = g_edges.edge_seq()[j];
            assert(g_edges.edge_ok(j));
            assert(graph.node_seq()[e.0].id@ == g_edges.node_seq()[e.0].id@);
            assert(graph.node_seq()[e.1].id@ == g_edges.node_seq()[e.1].id@);
            graph.lemma_index_of(edges@[j].source@, e.0);
            graph.lemma_index_of(edges@[j].target@, e.1);
        }
    }
    BuildResult { graph, files_scanned, col_lineage }
}

} // verus!
