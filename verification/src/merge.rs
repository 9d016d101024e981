use vstd::prelude::*;
use crate::assemble::{endpoints_from, ensure_view, has_view_id, infer_node_kinds, inferred_kinds, lemma_ensured};
use crate::graph::LineageGraph;
use crate::node::{EdgeView, LineageEdge, Node, NodeView};

verus! {

/// `ns` with the nodes of `new` whose identifiers it lacks appended, in order.
pub open spec fn nodes_added(ns: Seq<NodeView>, new: Seq<NodeView>) -> Seq<NodeView>
    decreases new.len(),
{
    if new.len() == 0 {
        ns
    } else {
        let m = nodes_added(ns, new.drop_last());
        if has_view_id(m, new.last().id) {
            m
        } else {
            m.push(new.last())
        }
    }
}

/// The abstract values of the edges of a graph, in order.
pub open spec fn edge_views(g: &LineageGraph) -> Seq<EdgeView> {
    g.edge_seq().map_values(|e: (int, int, LineageEdge)| e.2@)
}

/// After `add_node`, the node values are those before with the node appended
/// when its identifier was new.
pub(crate) proof fn lemma_node_added(g0: &LineageGraph, g1: &LineageGraph, n: NodeView)
    requires
        g0.wf(),
        g0.has_id(n.id) ==> g1.node_seq() == g0.node_seq(),
        !g0.has_id(n.id) ==> g1.node_seq().len() == g0.node_seq().len() + 1
            && g1.node_seq().drop_last() == g0.node_seq() && g1.node_seq().last()@ == n,
    ensures
        g1.node_views() == if has_view_id(g0.node_views(), n.id) {
            g0.node_views()
        } else {
            g0.node_views().push(n)
        },
{
    let v0 = g0.node_views();
    assert(g0.has_id(n.id) <==> has_view_id(v0, n.id)) by {
        if g0.has_id(n.id) {
            let i = choose|i: int| g0.id_at(n.id, i);
            assert(v0[i].id == n.id);
        }
        if has_view_id(v0, n.id) {
            let i = choose|i: int| 0 <= i < v0.len() && #[trigger] v0[i].id == n.id;
            assert(g0.id_at(n.id, i));
        }
    }
    if !g0.has_id(n.id) {
        assert forall|i: int| 0 <= i < v0.len() implies g1.node_views()[i] == v0[i] by {
            assert(g1.node_seq()[i] == g1.node_seq().drop_last()[i]);
        }
        assert(g1.node_views() =~= v0.push(n));
    }
}

/// Merges graph `g` into `merged`: first its nodes, each one whose identifier
/// `merged` lacks appended as it is; then its edges, each after making sure its
/// endpoints exist (with kinds inferred from its relation).
pub fn merge_into(merged: &mut LineageGraph, g: &LineageGraph)
    requires
        old(merged).wf(),
        g.wf(),
        old(merged).node_seq().len() + g.node_seq().len() + 2 * g.edge_seq().len() < u32::MAX,
        old(merged).edge_seq().len() + g.edge_seq().len() < u32::MAX,
    ensures
        final(merged).wf(),
        final(merged).node_views() == endpoints_from(nodes_added(old(merged).node_views(), g.node_views()), edge_views(g)),
        final(merged).edge_seq().len() == old(merged).edge_seq().len() + g.edge_seq().len(),
        forall|k: int| 0 <= k < old(merged).edge_seq().len() ==> #[trigger] final(merged).edge_seq()[k] == old(merged).edge_seq()[k],
        forall|k: int| 0 <= k < g.edge_seq().len() ==> {
            let e = #[trigger] final(merged).edge_seq()[old(merged).edge_seq().len() + k];
            &&& e.2@ == g.edge_seq()[k].2@
            &&& e.0 == final(merged).index_of(e.2.source@)
            &&& e.1 == final(merged).index_of(e.2.target@)
        },
{
    let ghost n0 = merged.node_seq().len();
    let ghost e0 = merged.edge_seq().len();
    let ghost old_edges = merged.edge_seq();
    let ghost gv = g.node_views();
    let ghost ge = edge_views(g);
    let ghost base = merged.node_views();
    let nodes = g.nodes();
    let mut i: usize = 0;
    proof {
        assert(gv.take(0) =~= Seq::<NodeView>::empty());
    }
    while i < nodes.len()
        invariant
            merged.wf(),
            g.wf(),
            gv == g.node_views(),
            nodes@.len() == g.node_seq().len(),
            forall|j: int| 0 <= j < nodes@.len() ==> *nodes@[j] == g.node_seq()[j],
            i <= nodes@.len(),
            merged.node_seq().len() <= n0 + i,
            n0 + g.node_seq().len() + 2 * g.edge_seq().len() < u32::MAX,
            merged.edge_seq() == old_edges,
            merged.node_views() == nodes_added(base, gv.take(i as int)),
        decreases nodes@.len() - i,
    {
        let ghost g0 = *merged;
        let n = nodes[i].clone();
        let ghost nv = n@;
        merged.add_node(n);
        proof {
            assert(nv == gv[i as int]);
            if !g0.has_id(nv.id) {
                assert(merged.node_seq().drop_last() =~= g0.node_seq());
            }
            lemma_node_added(&g0, merged, nv);
            assert(gv.take(i + 1).drop_last() =~= gv.take(i as int));
            assert(gv.take(i + 1).last() == nv);
        }
        i = i + 1;
    }
    proof {
        assert(gv.take(i as int) =~= gv);
    }
    let ghost mid = merged.node_views();
    let edges = g.edges();
    let mut k: usize = 0;
    proof {
        assert(ge.take(0) =~= Seq::<EdgeView>::empty());
    }
    while k < edges.len()
        invariant
            merged.wf(),
            g.wf(),
            ge == edge_views(g),
            edges@.len() == g.edge_seq().len(),
            forall|j: int| 0 <= j < edges@.len() ==> *edges@[j] == g.edge_seq()[j].2,
            k <= edges@.len(),
            merged.node_seq().len() <= n0 + g.node_seq().len() + 2 * k,
            n0 + g.node_seq().len() + 2 * g.edge_seq().len() < u32::MAX,
            e0 + g.edge_seq().len() < u32::MAX,
            merged.edge_seq().len() == e0 + k,
            forall|j: int| 0 <= j < e0 ==> #[trigger] merged.edge_seq()[j] == old_edges[j],
            forall|j: int| 0 <= j < k ==> (#[trigger] merged.edge_seq()[e0 + j]).2@ == g.edge_seq()[j].2@,
            merged.node_views() == endpoints_from(mid, ge.take(k as int)),
        decreases edges@.len() - k,
    {
        let e = edges[k];
        let ghost ev = e@;
        proof {
            assert(ev == ge[k as int]);
        }
        let kinds = infer_node_kinds(&e.relation);
        let ghost g0 = *merged;
        merged.ensure_node(&e.source, kinds.0, e.source_file.as_str());
        proof {
            lemma_ensured(&g0, merged, ev.source, kinds.0, ev.source_file);
        }
        let ghost g1 = *merged;
        merged.ensure_node(&e.target, kinds.1, e.source_file.as_str());
        proof {
            lemma_ensured(&g1, merged, ev.target, kinds.1, ev.source_file);
            assert(ge.take(k + 1).drop_last() =~= ge.take(k as int));
            assert(ge.take(k + 1).last() == ev);
            assert(merged.has_id(ev.source));
        }
        let ghost g2 = *merged;
        let added = merged.add_edge(e.clone());
        proof {
            assert(added is Ok);
            assert(merged.edge_seq()[e0 + k].2@ == ev);
            assert forall|j: int| 0 <= j < k implies (#[trigger] merged.edge_seq()[e0 + j]).2@ == g.edge_seq()[j].2@ by {
                assert(merged.edge_seq()[e0 + j] == g2.edge_seq()[e0 + j]);
            }
        }
        k = k + 1;
    }
    proof {
        assert(ge.take(k as int) =~= ge);
        assert forall|j: int| 0 <= j < g.edge_seq().len() implies {
            let e = #[trigger] merged.edge_seq()[e0 + j];
            &&& e.2@ == g.edge_seq()[j].2@
            &&& e.0 == merged.index_of(e.2.source@)
            &&& e.1 == merged.index_of(e.2.target@)
        } by {
            let e = merged.edge_seq()[e0 + j];
            assert(merged.edge_ok(e0 + j));
            merged.lemma_index_of(e.2.source@, e.0);
            merged.lemma_index_of(e.2.target@, e.1);
        }
    }
}
/// Adding nodes with pairwise distinct identifiers to nothing keeps them all.
pub(crate) proof fn lemma_nodes_added_distinct(ns: Seq<NodeView>)
    requires
        forall|a: int, b: int| 0 <= a < b < ns.len() ==> ns[a].id != ns[b].id,
    ensures
        nodes_added(Seq::empty(), ns) == ns,
    decreases ns.len(),
{
    if ns.len() > 0 {
        let rest = ns.drop_last();
        lemma_nodes_added_distinct(rest);
        if has_view_id(rest, ns.last().id) {
            let i = choose|i: int| 0 <= i < rest.len() && #[trigger] rest[i].id == ns.last().id;
            assert(ns[i].id != ns[ns.len() - 1].id);
        }
        assert(rest.push(ns.last()) =~= ns);
    }
}

/// Making sure of endpoints that are all nodes already changes nothing.
proof fn lemma_endpoints_known(ns: Seq<NodeView>, es: Seq<EdgeView>)
    requires
        forall|k: int| 0 <= k < es.len() ==> has_view_id(ns, (#[trigger] es[k]).source) && has_view_id(ns, es[k].target),
    ensures
        endpoints_from(ns, es) == ns,
    decreases es.len(),
{
    if es.len() > 0 {
        let rest = es.drop_last();
        assert forall|k: int| 0 <= k < rest.len() implies has_view_id(ns, (#[trigger] rest[k]).source) && has_view_id(ns, rest[k].target) by {
            assert(rest[k] == es[k]);
        }
        lemma_endpoints_known(ns, rest);
        assert(has_view_id(ns, es[es.len() - 1].source));
        assert(has_view_id(ns, es[es.len() - 1].target));
    }
}

/// Merging a graph into an empty one gives back its nodes, in order.
pub proof fn law_merge_into_empty(g: &LineageGraph)
    requires
        g.wf(),
    ensures
        endpoints_from(nodes_added(Seq::empty(), g.node_views()), edge_views(g)) == g.node_views(),
{
    let ns = g.node_views();
    assert forall|a: int, b: int| 0 <= a < b < ns.len() implies ns[a].id != ns[b].id by {
        assert(g.node_seq()[a].id@ != g.node_seq()[b].id@);
    }
    lemma_nodes_added_distinct(ns);
    let es = edge_views(g);
    assert forall|k: int| 0 <= k < es.len() implies has_view_id(ns, (#[trigger] es[k]).source) && has_view_id(ns, es[k].target) by {
        assert(g.edge_ok(k));
        let e = g.edge_seq()[k];
        assert(ns[e.0].id == es[k].source);
        assert(ns[e.1].id == es[k].target);
    }
    lemma_endpoints_known(ns, es);
}

/// Merging a graph all of whose nodes and edge endpoints are already present
/// changes no node.
pub proof fn law_merge_present_nodes(m: Seq<NodeView>, g: &LineageGraph)
    requires
        forall|i: int| 0 <= i < g.node_views().len() ==> has_view_id(m, (#[trigger] g.node_views()[i]).id),
        forall|k: int| 0 <= k < edge_views(g).len() ==> has_view_id(m, (#[trigger] edge_views(g)[k]).source)
            && has_view_id(m, edge_views(g)[k].target),
    ensures
        endpoints_from(nodes_added(m, g.node_views()), edge_views(g)) == m,
{
    lemma_nodes_present(m, g.node_views());
    lemma_endpoints_known(m, edge_views(g));
}

proof fn lemma_nodes_present(m: Seq<NodeView>, new: Seq<NodeView>)
    requires
        forall|i: int| 0 <= i < new.len() ==> has_view_id(m, (#[trigger] new[i]).id),
    ensures
        nodes_added(m, new) == m,
    decreases new.len(),
{
    if new.len() > 0 {
        let rest = new.drop_last();
        assert forall|i: int| 0 <= i < rest.len() implies has_view_id(m, (#[trigger] rest[i]).id) by {
            assert(rest[i] == new[i]);
        }
        lemma_nodes_present(m, rest);
        assert(has_view_id(m, new[new.len() - 1].id));
    }
}


} // verus!
