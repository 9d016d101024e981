use vstd::prelude::*;
use vstd::string::StringExecFns;
use crate::graph::LineageGraph;
use crate::node::{strings_view, EdgeView, LineageEdge, Node, NodeView};
use crate::text::{contains_string, copy_str};

verus! {

/// How an edge is named when two graphs are compared: `source -> target`.
pub open spec fn edge_key(e: EdgeView) -> Seq<char> {
    e.source + " -> "@ + e.target
}

/// The identifiers of the nodes of a graph.
pub open spec fn node_id_set(g: &LineageGraph) -> Set<Seq<char>> {
    g.node_views().map_values(|n: NodeView| n.id).to_set()
}

/// The names (`source -> target`) of the edges of a graph.
pub open spec fn edge_key_set(g: &LineageGraph) -> Set<Seq<char>> {
    g.edge_seq().map_values(|e: (int, int, LineageEdge)| edge_key(e.2@)).to_set()
}

/// The name of an edge: `source -> target`.
pub fn edge_label(e: &LineageEdge) -> (r: String)
    ensures
        r@ == edge_key(e@),
{
    let mut r = copy_str(e.source.0.as_str());
    r.append(" -> ");
    r.append(e.target.0.as_str());
    r
}

proof fn lemma_push_to_set(s: Seq<Seq<char>>, x: Seq<char>)
    ensures
        s.push(x).to_set() == s.to_set().insert(x),
{
    assert forall|a: Seq<char>| s.push(x).contains(a) <==> (s.contains(a) || a == x) by {
        if s.push(x).contains(a) {
            let k = choose|k: int| 0 <= k < s.push(x).len() && s.push(x)[k] == a;
            if k < s.len() {
                assert(s[k] == a);
            }
        }
        if s.contains(a) {
            let k = choose|k: int| 0 <= k < s.len() && s[k] == a;
            assert(s.push(x)[k] == a);
        }
        if a == x {
            assert(s.push(x)[s.len() as int] == a);
        }
    }
    assert forall|a: Seq<char>| #[trigger] s.push(x).to_set().contains(a) == s.to_set().insert(x).contains(a) by {
        assert(s.push(x).to_set().contains(a) == s.push(x).contains(a));
        assert(s.to_set().contains(a) == s.contains(a));
        assert(s.push(x).contains(a) <==> (s.contains(a) || a == x));
    }
    assert(s.push(x).to_set() =~= s.to_set().insert(x));
}

/// The strings of `a` that `b` lacks, each once, in the order first met in `a`.
fn distinct_difference(a: &Vec<String>, b: &Vec<String>) -> (r: Vec<String>)
    ensures
        strings_view(r@).no_duplicates(),
        strings_view(r@).to_set() == strings_view(a@).to_set().difference(strings_view(b@).to_set()),
{
    let ghost av = strings_view(a@);
    let ghost bv = strings_view(b@);
    let mut r: Vec<String> = Vec::new();
    let mut i: usize = 0;
    proof {
        assert(strings_view(r@).to_set() =~= av.take(0).to_set().difference(bv.to_set()));
    }
    while i < a.len()
        invariant
            av == strings_view(a@),
            bv == strings_view(b@),
            i <= a@.len(),
            strings_view(r@).no_duplicates(),
            strings_view(r@).to_set() == av.take(i as int).to_set().difference(bv.to_set()),
        decreases a@.len() - i,
    {
        let ghost before = strings_view(r@);
        let x = a[i].as_str();
        proof {
            assert(av.take(i + 1) =~= av.take(i as int).push(x@));
            lemma_push_to_set(av.take(i as int), x@);
        }
        if !contains_string(b, x) && !contains_string(&r, x) {
            r.push(copy_str(x));
            proof {
                assert(strings_view(r@) =~= before.push(x@));
                lemma_push_to_set(before, x@);
                assert(strings_view(r@).to_set() =~= av.take(i + 1).to_set().difference(bv.to_set()));
            }
        } else {
            proof {
                assert(strings_view(r@).to_set() =~= av.take(i + 1).to_set().difference(bv.to_set())) by {
                    if !bv.contains(x@) {
                        assert(before.contains(x@));
                        assert(before.to_set().contains(x@));
                    }
                }
            }
        }
        i = i + 1;
    }
    proof {
        assert(av.take(i as int) =~= av);
    }
    r
}

/// What changed from one graph to another: nodes and edges (named
/// `source -> target`) that appeared and that disappeared, each once.
#[derive(Debug)]
pub struct LineageDiff {
    pub added_nodes: Vec<String>,
    pub removed_nodes: Vec<String>,
    pub added_edges: Vec<String>,
    pub removed_edges: Vec<String>,
}

impl LineageDiff {
    /// Nothing changed.
    pub fn is_empty(&self) -> (r: bool)
        ensures
            r == (self.added_nodes@.len() == 0 && self.removed_nodes@.len() == 0
                && self.added_edges@.len() == 0 && self.removed_edges@.len() == 0),
    {
        self.added_nodes.len() == 0 && self.removed_nodes.len() == 0 && self.added_edges.len() == 0
            && self.removed_edges.len() == 0
    }
}

/// The identifiers of the nodes of a graph, in order.
fn node_ids(g: &LineageGraph) -> (r: Vec<String>)
    requires
        g.wf(),
    ensures
        strings_view(r@) == g.node_views().map_values(|n: NodeView| n.id),
{
    let nodes = g.nodes();
    let mut r: Vec<String> = Vec::new();
    let mut i: usize = 0;
    while i < nodes.len()
        invariant
            g.wf(),
            nodes@.len() == g.node_seq().len(),
            forall|j: int| 0 <= j < nodes@.len() ==> *nodes@[j] == g.node_seq()[j],
            i <= nodes@.len(),
            strings_view(r@) == g.node_views().map_values(|n: NodeView| n.id).take(i as int),
        decreases nodes@.len() - i,
    {
        let ghost before = strings_view(r@);
        r.push(copy_str(nodes[i].id.0.as_str()));
        proof {
            assert(g.node_views()[i as int] == g.node_seq()[i as int]@);
            assert(strings_view(r@) =~= before.push(nodes@[i as int].id@));
            let m = g.node_views().map_values(|n: NodeView| n.id);
            assert(m.take(i + 1) =~= m.take(i as int).push(m[i as int]));
            assert(strings_view(r@) =~= g.node_views().map_values(|n: NodeView| n.id).take(i + 1));
        }
        i = i + 1;
    }
    proof {
        assert(g.node_views().map_values(|n: NodeView| n.id).take(i as int) =~= g.node_views().map_values(|n: NodeView| n.id));
    }
    r
}

/// The names of the edges of a graph, in order.
fn edge_keys(g: &LineageGraph) -> (r: Vec<String>)
    requires
        g.wf(),
    ensures
        strings_view(r@) == g.edge_seq().map_values(|e: (int, int, LineageEdge)| edge_key(e.2@)),
{
    let edges = g.edges();
    let mut r: Vec<String> = Vec::new();
    let mut i: usize = 0;
    while i < edges.len()
        invariant
            g.wf(),
            edges@.len() == g.edge_seq().len(),
            forall|j: int| 0 <= j < edges@.len() ==> *edges@[j] == g.edge_seq()[j].2,
            i <= edges@.len(),
            strings_view(r@) == g.edge_seq().map_values(|e: (int, int, LineageEdge)| edge_key(e.2@)).take(i as int),
        decreases edges@.len() - i,
    {
        let ghost before = strings_view(r@);
        let label = edge_label(edges[i]);
        r.push(label);
        proof {
            assert(strings_view(r@) =~= before.push(label@));
        }
        proof {
            assert(*edges@[i as int] == g.edge_seq()[i as int].2);
            let m = g.edge_seq().map_values(|e: (int, int, LineageEdge)| edge_key(e.2@));
            assert(m.take(i + 1) =~= m.take(i as int).push(m[i as int]));
            assert(strings_view(r@) =~= g.edge_seq().map_values(|e: (int, int, LineageEdge)| edge_key(e.2@)).take(i + 1));
        }
        i = i + 1;
    }
    proof {
        assert(g.edge_seq().map_values(|e: (int, int, LineageEdge)| edge_key(e.2@)).take(i as int) =~= g.edge_seq().map_values(|e: (int, int, LineageEdge)| edge_key(e.2@)));
    }
    r
}

/// Compares a base graph with a current one.
pub fn diff_graphs(base: &LineageGraph, current: &LineageGraph) -> (r: LineageDiff)
    requires
        base.wf(),
        current.wf(),
    ensures
        strings_view(r.added_nodes@).no_duplicates(),
        strings_view(r.removed_nodes@).no_duplicates(),
        strings_view(r.added_edges@).no_duplicates(),
        strings_view(r.removed_edges@).no_duplicates(),
        strings_view(r.added_nodes@).to_set() == node_id_set(current).difference(node_id_set(base)),
        strings_view(r.removed_nodes@).to_set() == node_id_set(base).difference(node_id_set(current)),
        strings_view(r.added_edges@).to_set() == edge_key_set(current).difference(edge_key_set(base)),
        strings_view(r.removed_edges@).to_set() == edge_key_set(base).difference(edge_key_set(current)),
{
    let base_nodes = node_ids(base);
    let curr_nodes = node_ids(current);
    let base_edges = edge_keys(base);
    let curr_edges = edge_keys(current);
    LineageDiff {
        added_nodes: distinct_difference(&curr_nodes, &base_nodes),
        removed_nodes: distinct_difference(&base_nodes, &curr_nodes),
        added_edges: distinct_difference(&curr_edges, &base_edges),
        removed_edges: distinct_difference(&base_edges, &curr_edges),
    }
}

/// A graph compared with itself shows no change.
pub proof fn law_diff_self_empty(g: &LineageGraph)
    ensures
        node_id_set(g).difference(node_id_set(g)) == Set::<Seq<char>>::empty(),
        edge_key_set(g).difference(edge_key_set(g)) == Set::<Seq<char>>::empty(),
{
    assert(node_id_set(g).difference(node_id_set(g)) =~= Set::<Seq<char>>::empty());
    assert(edge_key_set(g).difference(edge_key_set(g)) =~= Set::<Seq<char>>::empty());
}

/// No node and no edge is both added and removed, and what is added going from
/// `a` to `b` is what is removed going from `b` to `a`.
pub proof fn law_diff_disjoint(a: &LineageGraph, b: &LineageGraph)
    ensures
        node_id_set(b).difference(node_id_set(a)).disjoint(node_id_set(a).difference(node_id_set(b))),
        edge_key_set(b).difference(edge_key_set(a)).disjoint(edge_key_set(a).difference(edge_key_set(b))),
{
}

} // verus!
