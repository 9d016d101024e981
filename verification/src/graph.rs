use vstd::prelude::*;
use petgraph::graph::{DiGraph, EdgeIndex, NodeIndex};
use crate::error::LineageError;
use crate::node::{strings_view, LineageEdge, Node, NodeId, NodeKind, NodeView};
use crate::text::{contains_string, lowercase, to_lowercase};
use crate::reach::{edge_step, level, lemma_neighbor_list, lemma_reachable_fixpoint, lemma_within_fixpoint, lemma_within_mono, lemma_within_next, next_level, fresh_from, no_farther, reachable, step, successors, walk, within};

verus! {

#[verifier::external_type_specification]
#[verifier::external_body]
#[verifier::reject_recursive_types(N)]
#[verifier::reject_recursive_types(E)]
#[verifier::reject_recursive_types(Ty)]
#[verifier::reject_recursive_types(Ix)]
pub struct ExGraph<N, E, Ty, Ix>(petgraph::graph::Graph<N, E, Ty, Ix>);

#[verifier::external_type_specification]
#[verifier::external_body]
pub struct ExDirected(petgraph::Directed);

/// The node weights a petgraph graph holds, in the order of their indices.
pub uninterp spec fn graph_nodes(g: DiGraph<Node, LineageEdge>) -> Seq<Node>;

/// The edges a petgraph graph holds, in the order of their indices: the index of
/// the source node, the index of the target node, and the weight.
pub uninterp spec fn graph_edges(g: DiGraph<Node, LineageEdge>) -> Seq<(int, int, LineageEdge)>;

/// Direction in which a traversal follows the edges.
#[derive(Clone, Copy, PartialEq, Eq, Structural)]
pub enum Dir {
    /// From source to target (downstream).
    Outgoing,
    /// From target to source (upstream).
    Incoming,
}

/// The neighbours `Graph::neighbors_directed` lists for node `i`: one per edge
/// leaving (`Outgoing`) or entering (`Incoming`) `i`, most recently added edge first.
pub open spec fn neighbor_list(es: Seq<(int, int, LineageEdge)>, i: int, dir: Dir) -> Seq<int>
    decreases es.len(),
{
    if es.len() == 0 {
        Seq::empty()
    } else {
        let e = es.last();
        let rest = neighbor_list(es.drop_last(), i, dir);
        if dir == Dir::Outgoing && e.0 == i {
            seq![e.1] + rest
        } else if dir == Dir::Incoming && e.1 == i {
            seq![e.0] + rest
        } else {
            rest
        }
    }
}

/// `Graph::new`: a directed graph with no nodes and no edges.
#[verifier::external_body]
fn graph_new() -> (g: DiGraph<Node, LineageEdge>)
    ensures
        graph_nodes(g) == Seq::<Node>::empty(),
        graph_edges(g) == Seq::<(int, int, LineageEdge)>::empty(),
{
    DiGraph::new()
}

/// `Graph::add_node`: appends the weight and returns its index, the former node
/// count. It panics when the count reaches the maximum of the `u32` index type.
#[verifier::external_body]
fn graph_add_node(g: &mut DiGraph<Node, LineageEdge>, w: Node) -> (i: usize)
    requires
        graph_nodes(*old(g)).len() < u32::MAX,
    ensures
        graph_nodes(*final(g)) == graph_nodes(*old(g)).push(w),
        graph_edges(*final(g)) == graph_edges(*old(g)),
        i == graph_nodes(*old(g)).len(),
{
    g.add_node(w).index()
}

/// `Graph::add_edge`: appends an edge from node `a` to node `b`. It panics when
/// a node index is out of bounds or the edge count reaches the `u32` maximum.
#[verifier::external_body]
fn graph_add_edge(g: &mut DiGraph<Node, LineageEdge>, a: usize, b: usize, w: LineageEdge)
    requires
        a < graph_nodes(*old(g)).len(),
        b < graph_nodes(*old(g)).len(),
        graph_nodes(*old(g)).len() <= u32::MAX,
        graph_edges(*old(g)).len() < u32::MAX,
    ensures
        graph_nodes(*final(g)) == graph_nodes(*old(g)),
        graph_edges(*final(g)) == graph_edges(*old(g)).push((a as int, b as int, w)),
{
    g.add_edge(NodeIndex::new(a), NodeIndex::new(b), w);
}

/// Indexing a graph by a node index: the weight of node `i`.
#[verifier::external_body]
fn graph_node(g: &DiGraph<Node, LineageEdge>, i: usize) -> (r: &Node)
    requires
        i < graph_nodes(*g).len(),
        graph_nodes(*g).len() <= u32::MAX,
    ensures
        *r == graph_nodes(*g)[i as int],
{
    &g[NodeIndex::new(i)]
}

/// Indexing a graph mutably by a node index: replaces the weight of node `i`.
#[verifier::external_body]
fn graph_set_node(g: &mut DiGraph<Node, LineageEdge>, i: usize, w: Node)
    requires
        i < graph_nodes(*old(g)).len(),
        graph_nodes(*old(g)).len() <= u32::MAX,
    ensures
        graph_nodes(*final(g)) == graph_nodes(*old(g)).update(i as int, w),
        graph_edges(*final(g)) == graph_edges(*old(g)),
{
    g[NodeIndex::new(i)] = w;
}

/// Indexing a graph by an edge index: the weight of edge `k`.
#[verifier::external_body]
fn graph_edge(g: &DiGraph<Node, LineageEdge>, k: usize) -> (r: &LineageEdge)
    requires
        k < graph_edges(*g).len(),
        graph_edges(*g).len() <= u32::MAX,
    ensures
        *r == graph_edges(*g)[k as int].2,
{
    &g[EdgeIndex::new(k)]
}

/// `Graph::node_count`.
#[verifier::external_body]
fn graph_node_count(g: &DiGraph<Node, LineageEdge>) -> (r: usize)
    ensures
        r == graph_nodes(*g).len(),
{
    g.node_count()
}

/// `Graph::edge_count`.
#[verifier::external_body]
fn graph_edge_count(g: &DiGraph<Node, LineageEdge>) -> (r: usize)
    ensures
        r == graph_edges(*g).len(),
{
    g.edge_count()
}

/// `Graph::neighbors_directed`, collected: the neighbours of node `i` in direction `dir`,
/// in the order the iterator lists them.
#[verifier::external_body]
fn graph_neighbors(g: &DiGraph<Node, LineageEdge>, i: usize, dir: Dir) -> (r: Vec<usize>)
    requires
        i < graph_nodes(*g).len(),
        graph_nodes(*g).len() <= u32::MAX,
    ensures
        r@.map_values(|x: usize| x as int) == neighbor_list(graph_edges(*g), i as int, dir),
{
    let d = match dir {
        Dir::Outgoing => petgraph::Direction::Outgoing,
        Dir::Incoming => petgraph::Direction::Incoming,
    };
    g.neighbors_directed(NodeIndex::new(i), d).map(|n| n.index()).collect()
}

/// The indices of a list, as integers.
pub open spec fn ints(s: Seq<usize>) -> Seq<int> {
    s.map_values(|x: usize| x as int)
}

/// The set of indices a list holds.
pub open spec fn index_set(s: Seq<usize>) -> Set<int> {
    ints(s).to_set()
}

proof fn lemma_index_set_push(s: Seq<usize>, x: usize)
    ensures
        index_set(s.push(x)) == index_set(s).insert(x as int),
        ints(s.push(x)) == ints(s).push(x as int),
{
    assert(ints(s.push(x)) =~= ints(s).push(x as int));
    ints(s).lemma_push_to_set_commute(x as int);
}

proof fn lemma_index_set_prefix(s: Seq<usize>, i: int)
    requires
        0 <= i < s.len(),
    ensures
        index_set(s.subrange(0, i + 1)) == index_set(s.subrange(0, i)).insert(s[i] as int),
{
    assert(s.subrange(0, i + 1) =~= s.subrange(0, i).push(s[i]));
    lemma_index_set_push(s.subrange(0, i), s[i]);
}

/// A node's column list after merging `new` into it: each new name is lower-cased
/// and appended unless the list holds it already.
pub open spec fn merge_columns(acc: Seq<Seq<char>>, new: Seq<Seq<char>>) -> Seq<Seq<char>>
    decreases new.len(),
{
    if new.len() == 0 {
        acc
    } else {
        let m = merge_columns(acc, new.drop_last());
        let c = lowercase(new.last());
        if m.contains(c) {
            m
        } else {
            m.push(c)
        }
    }
}

/// The lineage DAG: a petgraph directed graph whose nodes are looked up by identifier.
pub struct LineageGraph {
    graph: DiGraph<Node, LineageEdge>,
}

impl LineageGraph {
    /// The nodes of the graph, in the order they were added.
    pub closed spec fn node_seq(&self) -> Seq<Node> {
        graph_nodes(self.graph)
    }

    /// The edges of the graph, in the order they were added: source index, target
    /// index, weight.
    pub closed spec fn edge_seq(&self) -> Seq<(int, int, LineageEdge)> {
        graph_edges(self.graph)
    }

    /// The abstract values of the nodes, in the order they were added.
    pub open spec fn node_views(&self) -> Seq<NodeView> {
        self.node_seq().map_values(|n: Node| n@)
    }

    /// Node `i` has identifier `id`.
    pub open spec fn id_at(&self, id: Seq<char>, i: int) -> bool {
        0 <= i < self.node_seq().len() && self.node_seq()[i].id@ == id
    }

    /// Some node has identifier `id`.
    pub open spec fn has_id(&self, id: Seq<char>) -> bool {
        exists|i: int| self.id_at(id, i)
    }

    /// The index of the node with identifier `id`.
    pub open spec fn index_of(&self, id: Seq<char>) -> int {
        choose|i: int| self.id_at(id, i)
    }

    /// Well-formedness: identifiers are unique, every edge joins two nodes, and the
    /// weight of every edge names its two nodes.
    pub open spec fn wf(&self) -> bool {
        &&& self.node_seq().len() <= u32::MAX
        &&& self.edge_seq().len() <= u32::MAX
        &&& forall|i: int, j: int|
            #![trigger self.node_seq()[i], self.node_seq()[j]]
            0 <= i < j < self.node_seq().len() ==> self.node_seq()[i].id@
                != self.node_seq()[j].id@
        &&& forall|k: int| 0 <= k < self.edge_seq().len() ==> #[trigger] self.edge_ok(k)
    }

    /// Edge `k` joins two nodes of the graph, and its weight names them.
    pub open spec fn edge_ok(&self, k: int) -> bool {
        let e = self.edge_seq()[k];
        &&& 0 <= e.0 < self.node_seq().len()
        &&& 0 <= e.1 < self.node_seq().len()
        &&& self.node_seq()[e.0].id@ == e.2.source@
        &&& self.node_seq()[e.1].id@ == e.2.target@
    }

    /// In a well-formed graph, an identifier is at exactly one index.
    pub proof fn lemma_index_of(&self, id: Seq<char>, i: int)
        requires
            self.wf(),
            self.id_at(id, i),
        ensures
            self.has_id(id),
            self.index_of(id) == i,
    {
        let j = self.index_of(id);
        assert(self.id_at(id, j));
        if j < i {
            assert(self.node_seq()[j].id@ != self.node_seq()[i].id@);
        } else if i < j {
            assert(self.node_seq()[i].id@ != self.node_seq()[j].id@);
        }
    }

    /// An empty graph.
    pub fn new() -> (g: Self)
        ensures
            g.wf(),
            g.node_seq() == Seq::<Node>::empty(),
            g.edge_seq() == Seq::<(int, int, LineageEdge)>::empty(),
    {
        LineageGraph { graph: graph_new() }
    }

    /// The index of the node with identifier `id`, if there is one.
    fn find(&self, id: &NodeId) -> (r: Option<usize>)
        requires
            self.wf(),
        ensures
            match r {
                Some(i) => self.id_at(id@, i as int) && self.index_of(id@) == i,
                None => !self.has_id(id@),
            },
    {
        let n = graph_node_count(&self.graph);
        let mut i: usize = 0;
        while i < n
            invariant
                self.wf(),
                n == self.node_seq().len(),
                i <= n,
                forall|j: int| 0 <= j < i ==> !self.id_at(id@, j),
            decreases n - i,
        {
            let node = graph_node(&self.graph, i);
            if node.id == *id {
                proof {
                    self.lemma_index_of(id@, i as int);
                }
                return Some(i);
            }
            i = i + 1;
        }
        None
    }

    /// Adds a node. When a node with the same identifier exists already, the graph
    /// is left as it is (that node keeps its kind, source file and columns) and its
    /// index is returned; otherwise the node is appended, so every other node keeps
    /// its index. Either way the edges are unchanged and identifiers stay distinct.
    pub fn add_node(&mut self, node: Node) -> (r: usize)
        requires
            old(self).wf(),
            old(self).node_seq().len() < u32::MAX,
        ensures
            final(self).wf(),
            final(self).edge_seq() == old(self).edge_seq(),
            old(self).has_id(node.id@) ==> final(self).node_seq() == old(self).node_seq() && r
                == old(self).index_of(node.id@),
            !old(self).has_id(node.id@) ==> final(self).node_seq() == old(self).node_seq().push(
                node,
            ) && r == old(self).node_seq().len(),
            final(self).id_at(node.id@, r as int),
    {
        match self.find(&node.id) {
            Some(i) => i,
            None => {
                let ghost old_nodes = self.node_seq();
                let i = graph_add_node(&mut self.graph, node);
                proof {
                    assert forall|a: int, b: int|
                        0 <= a < b < self.node_seq().len() implies self.node_seq()[a].id@
                        != self.node_seq()[b].id@ by {
                        if b == old_nodes.len() {
                            assert(!old(self).id_at(node.id@, a));
                        } else {
                            assert(old_nodes[a].id@ != old_nodes[b].id@);
                        }
                    }
                    assert forall|k: int| 0 <= k < self.edge_seq().len() implies self.edge_ok(
                        k,
                    ) by {
                        assert(old(self).edge_ok(k));
                    }
                }
                i
            },
        }
    }

    /// Makes sure a node with identifier `id` exists, adding a node of the given kind
    /// and source file with no columns when there is none; returns its index.
    pub fn ensure_node(&mut self, id: &NodeId, kind: NodeKind, source_file: &str) -> (r: usize)
        requires
            old(self).wf(),
            old(self).node_seq().len() < u32::MAX,
        ensures
            final(self).wf(),
            final(self).edge_seq() == old(self).edge_seq(),
            old(self).has_id(id@) ==> final(self).node_seq() == old(self).node_seq() && r
                == old(self).index_of(id@),
            !old(self).has_id(id@) ==> {
                &&& final(self).node_seq().len() == old(self).node_seq().len() + 1
                &&& final(self).node_seq().drop_last() == old(self).node_seq()
                &&& final(self).node_seq().last()@ == crate::node::NodeView {
                    id: id@,
                    kind,
                    source_file: source_file@,
                    columns: Seq::empty(),
                }
                &&& r == old(self).node_seq().len()
            },
            final(self).id_at(id@, r as int),
    {
        match self.find(id) {
            Some(i) => i,
            None => {
                let node = Node {
                    id: id.clone(),
                    kind,
                    source_file: crate::text::copy_str(source_file),
                    columns: Vec::new(),
                };
                proof {
                    assert(crate::node::strings_view(node.columns@) =~= Seq::empty());
                }
                let r = self.add_node(node);
                proof {
                    assert(self.node_seq().drop_last() == old(self).node_seq());
                }
                r
            },
        }
    }

    /// Adds an edge between two existing nodes; fails with `NodeNotFound` naming the
    /// source, or else the target, when no node has that identifier.
    pub fn add_edge(&mut self, edge: LineageEdge) -> (r: Result<(), LineageError>)
        requires
            old(self).wf(),
            old(self).edge_seq().len() < u32::MAX,
        ensures
            final(self).wf(),
            final(self).node_seq() == old(self).node_seq(),
            r is Ok <==> old(self).has_id(edge.source@) && old(self).has_id(edge.target@),
            r is Ok ==> final(self).edge_seq() == old(self).edge_seq().push(
                (old(self).index_of(edge.source@), old(self).index_of(edge.target@), edge),
            ),
            r is Err ==> final(self).edge_seq() == old(self).edge_seq(),
            r matches Err(e) ==> e matches LineageError::NodeNotFound(s) && s@ == if !old(
                self,
            ).has_id(edge.source@) {
                edge.source@
            } else {
                edge.target@
            },
    {
        let si = match self.find(&edge.source) {
            Some(i) => i,
            None => {
                return Err(LineageError::NodeNotFound(edge.source.to_string()));
            },
        };
        let ti = match self.find(&edge.target) {
            Some(i) => i,
            None => {
                return Err(LineageError::NodeNotFound(edge.target.to_string()));
            },
        };
        let ghost old_edges = self.edge_seq();
        graph_add_edge(&mut self.graph, si, ti, edge);
        proof {
            assert forall|k: int| 0 <= k < self.edge_seq().len() implies self.edge_ok(k) by {
                if k < old_edges.len() {
                    assert(old(self).edge_ok(k));
                }
            }
        }
        Ok(())
    }

    /// The node with identifier `id`, if there is one.
    pub fn get_node(&self, id: &NodeId) -> (r: Option<&Node>)
        requires
            self.wf(),
        ensures
            match r {
                Some(n) => self.has_id(id@) && *n == self.node_seq()[self.index_of(id@)],
                None => !self.has_id(id@),
            },
    {
        match self.find(id) {
            Some(i) => Some(graph_node(&self.graph, i)),
            None => None,
        }
    }

    /// All nodes, in the order they were added.
    pub fn nodes(&self) -> (r: Vec<&Node>)
        requires
            self.wf(),
        ensures
            r@.len() == self.node_seq().len(),
            forall|i: int| 0 <= i < r@.len() ==> *r@[i] == self.node_seq()[i],
    {
        let n = graph_node_count(&self.graph);
        let mut r: Vec<&Node> = Vec::new();
        let mut i: usize = 0;
        while i < n
            invariant
                self.wf(),
                n == self.node_seq().len(),
                i <= n,
                r@.len() == i,
                forall|j: int| 0 <= j < i ==> *r@[j] == self.node_seq()[j],
            decreases n - i,
        {
            r.push(graph_node(&self.graph, i));
            i = i + 1;
        }
        r
    }

    /// All edges, in the order they were added.
    pub fn edges(&self) -> (r: Vec<&LineageEdge>)
        requires
            self.wf(),
        ensures
            r@.len() == self.edge_seq().len(),
            forall|i: int| 0 <= i < r@.len() ==> *r@[i] == self.edge_seq()[i].2,
    {
        let n = graph_edge_count(&self.graph);
        let mut r: Vec<&LineageEdge> = Vec::new();
        let mut i: usize = 0;
        while i < n
            invariant
                self.wf(),
                n == self.edge_seq().len(),
                i <= n,
                r@.len() == i,
                forall|j: int| 0 <= j < i ==> *r@[j] == self.edge_seq()[j].2,
            decreases n - i,
        {
            r.push(graph_edge(&self.graph, i));
            i = i + 1;
        }
        r
    }


    /// The nodes a traversal from node `s` in direction `dir` covers: those at most
    /// `m` steps away when the depth is limited to `m`, all reachable ones otherwise.
    pub open spec fn bfs_target(&self, s: int, dir: Dir, max_depth: Option<usize>) -> Set<int> {
        match max_depth {
            Some(m) => within(self.edge_seq(), dir, s, m as nat),
            None => reachable(self.edge_seq(), dir, s),
        }
    }

    /// The nodes a breadth-first walk from node `s` lists, in order: level by level,
    /// each level the not yet visited neighbours (in the graph's neighbour order) of
    /// the nodes of the level before, in order; at most `m` levels when the depth is
    /// limited to `m`, else until a level is empty.
    pub open spec fn bfs_order(&self, s: int, dir: Dir, max_depth: Option<usize>) -> Seq<int> {
        walk(
            self.edge_seq(),
            dir,
            seq![s],
            set![s],
            match max_depth {
                Some(m) => m as nat,
                None => self.node_seq().len(),
            },
        )
    }

    proof fn lemma_step_in_range(&self, dir: Dir, u: int, v: int)
        requires
            self.wf(),
            step(self.edge_seq(), dir, u, v),
        ensures
            0 <= u < self.node_seq().len(),
            0 <= v < self.node_seq().len(),
    {
        let k = choose|k: int|
            0 <= k < self.edge_seq().len() && #[trigger] edge_step(self.edge_seq()[k], dir, u, v);
        assert(self.edge_ok(k));
    }

    /// Marks and collects, in order, the not yet visited neighbours of the nodes of
    /// `frontier`.
    fn expand(
        &self,
        frontier: &Vec<usize>,
        visited: &mut Vec<bool>,
        dir: Dir,
        Ghost(w): Ghost<Set<int>>,
    ) -> (next: Vec<usize>)
        requires
            self.wf(),
            old(visited)@.len() == self.node_seq().len(),
            forall|v: int| 0 <= v < self.node_seq().len() ==> (old(visited)@[v] <==> w.contains(v)),
            forall|v: int| w.contains(v) ==> 0 <= v < self.node_seq().len(),
            forall|k: int| 0 <= k < frontier@.len() ==> frontier@[k] < self.node_seq().len(),
        ensures
            final(visited)@.len() == self.node_seq().len(),
            ({
                let w2 = w.union(successors(self.edge_seq(), dir, index_set(frontier@)));
                &&& forall|v: int|
                    0 <= v < self.node_seq().len() ==> (final(visited)@[v] <==> w2.contains(v))
                &&& forall|v: int| w2.contains(v) ==> 0 <= v < self.node_seq().len()
                &&& ints(next@).no_duplicates()
                &&& index_set(next@) == w2.difference(w)
            }),
            ints(next@) == next_level(self.edge_seq(), dir, ints(frontier@), w),
    {
        let ghost es = self.edge_seq();
        let ghost n = self.node_seq().len();
        let mut next: Vec<usize> = Vec::new();
        let mut fi: usize = 0;
        proof {
            assert(index_set(frontier@.subrange(0, 0)) =~= Set::empty());
            assert(successors(es, dir, Set::empty()) =~= Set::empty());
            assert(w.union(Set::empty()) =~= w);
            assert(index_set(next@) =~= Set::empty());
            assert(w.difference(w) =~= Set::empty());
            assert(ints(frontier@).subrange(0, 0) =~= Seq::<int>::empty());
            assert(ints(next@) =~= Seq::<int>::empty());
        }
        while fi < frontier.len()
            invariant
                self.wf(),
                es == self.edge_seq(),
                n == self.node_seq().len(),
                fi <= frontier@.len(),
                visited@.len() == n,
                forall|k: int| 0 <= k < frontier@.len() ==> frontier@[k] < n,
                forall|v: int| w.contains(v) ==> 0 <= v < n,
                ({
                    let cur = w.union(successors(es, dir, index_set(frontier@.subrange(0, fi as int))));
                    &&& forall|v: int| 0 <= v < n ==> (visited@[v] <==> cur.contains(v))
                    &&& forall|v: int| cur.contains(v) ==> 0 <= v < n
                    &&& ints(next@).no_duplicates()
                    &&& index_set(next@) == cur.difference(w)
                }),
                ints(next@) == next_level(es, dir, ints(frontier@).subrange(0, fi as int), w),
            decreases frontier@.len() - fi,
        {
            let u = frontier[fi];
            let nb = graph_neighbors(&self.graph, u, dir);
            let ghost cur0 = w.union(successors(es, dir, index_set(frontier@.subrange(0, fi as int))));
            let ghost p0 = ints(next@);
            let ghost seen0 = w.union(p0.to_set());
            proof {
                assert(ints(nb@).subrange(0, 0) =~= Seq::<int>::empty());
                assert(ints(next@) =~= p0 + fresh_from(ints(nb@).subrange(0, 0), seen0));
            }
            let mut ni: usize = 0;
            proof {
                assert(index_set(nb@.subrange(0, 0)) =~= Set::empty());
                assert(cur0.union(Set::empty()) =~= cur0);
            }
            while ni < nb.len()
                invariant
                    self.wf(),
                    es == self.edge_seq(),
                    n == self.node_seq().len(),
                    u < n,
                    ni <= nb@.len(),
                    visited@.len() == n,
                    ints(nb@) == crate::graph::neighbor_list(es, u as int, dir),
                    forall|v: int| w.contains(v) ==> 0 <= v < n,
                    forall|v: int| cur0.contains(v) ==> 0 <= v < n,
                    w.subset_of(cur0),
                    ({
                        let cur = cur0.union(index_set(nb@.subrange(0, ni as int)));
                        &&& forall|v: int| 0 <= v < n ==> (visited@[v] <==> cur.contains(v))
                        &&& forall|v: int| cur.contains(v) ==> 0 <= v < n
                        &&& ints(next@).no_duplicates()
                        &&& index_set(next@) == cur.difference(w)
                    }),
                    p0 == next_level(es, dir, ints(frontier@).subrange(0, fi as int), w),
                    seen0 == w.union(p0.to_set()),
                    ints(next@) == p0 + fresh_from(ints(nb@).subrange(0, ni as int), seen0),
                decreases nb@.len() - ni,
            {
                let v = nb[ni];
                let ghost prev = cur0.union(index_set(nb@.subrange(0, ni as int)));
                let ghost f0 = fresh_from(ints(nb@).subrange(0, ni as int), seen0);
                proof {
                    let ns1 = ints(nb@).subrange(0, ni + 1);
                    assert(ns1.drop_last() =~= ints(nb@).subrange(0, ni as int));
                    assert(ns1.last() == v as int);
                    assert(prev.contains(v as int) <==> (seen0.contains(v as int) || f0.contains(v as int))) by {
                        assert(ints(next@) == p0 + f0);
                        if prev.contains(v as int) && !w.contains(v as int) {
                            assert(index_set(next@).contains(v as int));
                            assert(ints(next@).contains(v as int));
                            let k = choose|k: int| 0 <= k < ints(next@).len() && ints(next@)[k] == v as int;
                            if k < p0.len() {
                                assert(p0[k] == v as int);
                                assert(p0.contains(v as int));
                            } else {
                                assert(f0[k - p0.len()] == v as int);
                            }
                        }
                        if p0.contains(v as int) {
                            let k = choose|k: int| 0 <= k < p0.len() && p0[k] == v as int;
                            assert(ints(next@)[k] == v as int);
                            assert(index_set(next@).contains(v as int));
                        }
                        if f0.contains(v as int) {
                            let k = choose|k: int| 0 <= k < f0.len() && f0[k] == v as int;
                            assert(ints(next@)[p0.len() + k] == v as int);
                            assert(index_set(next@).contains(v as int));
                        }
                    }
                }
                proof {
                    assert(ints(nb@)[ni as int] == v as int);
                    assert(crate::graph::neighbor_list(es, u as int, dir).contains(v as int));
                    lemma_neighbor_list(es, u as int, dir, v as int);
                    self.lemma_step_in_range(dir, u as int, v as int);
                    lemma_index_set_prefix(nb@, ni as int);
                }
                if !visited[v] {
                    let ghost old_next = next@;
                    visited.set(v, true);
                    next.push(v);
                    proof {
                        lemma_index_set_push(old_next, v);
                        assert(!prev.contains(v as int));
                        assert(!index_set(old_next).contains(v as int));
                        assert(!ints(old_next).contains(v as int));
                        assert(ints(next@).no_duplicates()) by {
                            assert forall|a: int, b: int|
                                0 <= a < b < ints(next@).len() implies ints(next@)[a]
                                != ints(next@)[b] by {
                                if b == ints(old_next).len() {
                                    assert(ints(next@)[a] == ints(old_next)[a]);
                                } else {
                                    assert(ints(next@)[a] == ints(old_next)[a]);
                                    assert(ints(next@)[b] == ints(old_next)[b]);
                                }
                            }
                        }
                        assert(index_set(next@) =~= prev.insert(v as int).difference(w));
                    }
                }
                proof {
                    assert(prev.insert(v as int) =~= cur0.union(index_set(nb@.subrange(0, ni + 1))));
                    let ns1 = ints(nb@).subrange(0, ni + 1);
                    assert(ns1.drop_last() =~= ints(nb@).subrange(0, ni as int));
                    assert(ns1.last() == v as int);
                    assert(ints(next@) =~= p0 + fresh_from(ns1, seen0));
                }
                ni = ni + 1;
            }
            proof {
                let full = cur0.union(index_set(nb@.subrange(0, ni as int)));
                assert(nb@.subrange(0, ni as int) =~= nb@);
                let pre = index_set(frontier@.subrange(0, fi as int));
                let pre1 = index_set(frontier@.subrange(0, fi + 1));
                lemma_index_set_prefix(frontier@, fi as int);
                assert(pre1 == pre.insert(u as int));
                assert forall|v: int| #![trigger successors(es, dir, pre1).contains(v)]
                    successors(es, dir, pre1).contains(v) <==> (successors(es, dir, pre).contains(v)
                        || index_set(nb@).contains(v)) by {
                    lemma_neighbor_list(es, u as int, dir, v);
                    assert(index_set(nb@).contains(v) <==> ints(nb@).contains(v));
                    if successors(es, dir, pre1).contains(v) {
                        let x = choose|x: int| pre1.contains(x) && #[trigger] step(es, dir, x, v);
                        if x != u as int {
                            assert(pre.contains(x));
                        }
                    }
                    if successors(es, dir, pre).contains(v) {
                        let x = choose|x: int| pre.contains(x) && #[trigger] step(es, dir, x, v);
                        assert(pre1.contains(x));
                    }
                    if index_set(nb@).contains(v) {
                        assert(pre1.contains(u as int));
                        assert(step(es, dir, u as int, v));
                    }
                }
                assert(full =~= w.union(successors(es, dir, pre1)));
                let fr1 = ints(frontier@).subrange(0, fi + 1);
                assert(fr1.drop_last() =~= ints(frontier@).subrange(0, fi as int));
                assert(fr1.last() == u as int);
                assert(ints(nb@).subrange(0, ni as int) =~= ints(nb@));
                assert(ints(next@) =~= next_level(es, dir, fr1, w));
            }
            fi = fi + 1;
        }
        proof {
            assert(frontier@.subrange(0, fi as int) =~= frontier@);
            assert(ints(frontier@).subrange(0, fi as int) =~= ints(frontier@));
        }
        next
    }

    /// Breadth-first traversal from node `start`, level by level: the nodes visited,
    /// in the order they are first reached, without `start` itself. With a limit `m`
    /// only nodes at most `m` steps away are visited.
    fn bfs(&self, start: usize, dir: Dir, max_depth: Option<usize>) -> (r: Vec<usize>)
        requires
            self.wf(),
            start < self.node_seq().len(),
        ensures
            ints(r@).no_duplicates(),
            index_set(r@) == self.bfs_target(start as int, dir, max_depth).remove(start as int),
            forall|k: int| 0 <= k < r@.len() ==> r@[k] < self.node_seq().len(),
            forall|a: int, b: int| #![trigger r@[a], r@[b]] 0 <= a < b < r@.len()
                ==> no_farther(self.edge_seq(), dir, start as int, r@[a] as int, r@[b] as int),
            ints(r@) == self.bfs_order(start as int, dir, max_depth),
    {
        let ghost es = self.edge_seq();
        let ghost s = start as int;
        let ghost levels: nat = match max_depth {
            Some(m) => m as nat,
            None => self.node_seq().len(),
        };
        let n = graph_node_count(&self.graph);
        let mut visited: Vec<bool> = Vec::new();
        let mut i: usize = 0;
        while i < n
            invariant
                i <= n,
                visited@.len() == i,
                forall|v: int| 0 <= v < i ==> !visited@[v],
            decreases n - i,
        {
            visited.push(false);
            i = i + 1;
        }
        visited.set(start, true);
        let mut frontier: Vec<usize> = Vec::new();
        frontier.push(start);
        let mut result: Vec<usize> = Vec::new();
        let mut depth: usize = 0;
        proof {
            assert(within(es, dir, s, 0) == set![s]);
            assert(index_set(frontier@) =~= set![s]) by {
                lemma_index_set_push(Seq::<usize>::empty(), start);
                assert(frontier@ =~= Seq::<usize>::empty().push(start));
                assert(index_set(Seq::<usize>::empty()) =~= Set::<int>::empty());
            }
            assert(index_set(result@) =~= set![s].remove(s));
            assert(ints(frontier@).no_duplicates());
            assert(ints(frontier@) =~= seq![s]);
            assert(ints(result@) =~= Seq::<int>::empty());
            assert(ints(result@) + walk(es, dir, ints(frontier@), within(es, dir, s, 0), levels) =~= walk(
                es,
                dir,
                seq![s],
                set![s],
                levels,
            ));
        }
        loop
            invariant
                self.wf(),
                es == self.edge_seq(),
                n == self.node_seq().len(),
                s == start,
                start < n,
                visited@.len() == n,
                forall|v: int| 0 <= v < n ==> (visited@[v] <==> within(es, dir, s, depth as nat).contains(v)),
                forall|v: int| within(es, dir, s, depth as nat).contains(v) ==> 0 <= v < n,
                ints(frontier@).no_duplicates(),
                index_set(frontier@) == level(es, dir, s, depth as nat),
                forall|k: int| 0 <= k < frontier@.len() ==> frontier@[k] < n,
                ints(result@).no_duplicates(),
                index_set(result@) == within(es, dir, s, depth as nat).remove(s),
                forall|k: int| 0 <= k < result@.len() ==> result@[k] < n,
                forall|a: int, b: int| #![trigger result@[a], result@[b]] 0 <= a < b < result@.len()
                    ==> no_farther(es, dir, s, result@[a] as int, result@[b] as int),
                result@.len() < n,
                n <= u32::MAX,
                frontier@.len() > 0 ==> depth <= result@.len(),
                depth <= result@.len() + 1,
                max_depth matches Some(m) ==> depth <= m,
                levels == match max_depth {
                    Some(m) => m as nat,
                    None => n as nat,
                },
                depth <= levels,
                ints(result@) + walk(es, dir, ints(frontier@), within(es, dir, s, depth as nat), (levels - depth) as nat)
                    == walk(es, dir, seq![s], set![s], levels),
            ensures
                ints(result@) == walk(es, dir, seq![s], set![s], levels),
                ints(result@).no_duplicates(),
                index_set(result@) == self.bfs_target(s, dir, max_depth).remove(s),
                forall|k: int| 0 <= k < result@.len() ==> result@[k] < n,
                forall|a: int, b: int| #![trigger result@[a], result@[b]] 0 <= a < b < result@.len()
                    ==> no_farther(es, dir, s, result@[a] as int, result@[b] as int),
            decreases 2 * (n - result@.len()) + if frontier@.len() > 0 { 1int } else { 0int },
        {
            let at_limit = match max_depth {
                Some(m) => depth >= m,
                None => false,
            };
            if frontier.len() == 0 || at_limit {
                proof {
                    assert(walk(es, dir, ints(frontier@), within(es, dir, s, depth as nat), (levels - depth) as nat)
                        =~= Seq::<int>::empty());
                    assert(ints(result@) + Seq::<int>::empty() =~= ints(result@));
                    lemma_within_mono(es, dir, s, 0, depth as nat);
                    if frontier.len() == 0 {
                        assert(level(es, dir, s, depth as nat) =~= Set::<int>::empty()) by {
                            assert(index_set(frontier@) =~= Set::<int>::empty());
                        }
                        if depth == 0 {
                            assert(level(es, dir, s, 0).contains(s));
                        }
                        let d1 = (depth - 1) as nat;
                        assert(within(es, dir, s, d1 + 1) =~= within(es, dir, s, d1)) by {
                            lemma_within_mono(es, dir, s, d1, depth as nat);
                            assert forall|v: int| within(es, dir, s, depth as nat).contains(v)
                                implies within(es, dir, s, d1).contains(v) by {
                                assert(!level(es, dir, s, depth as nat).contains(v));
                            }
                        }
                        match max_depth {
                            Some(m) => {
                                lemma_within_fixpoint(es, dir, s, d1, m as nat);
                                lemma_within_fixpoint(es, dir, s, d1, depth as nat);
                            },
                            None => {
                                lemma_reachable_fixpoint(es, dir, s, d1);
                                lemma_within_fixpoint(es, dir, s, d1, depth as nat);
                            },
                        }
                    }
                }
                break;
            }
            let ghost w = within(es, dir, s, depth as nat);
            let ghost old_result = result@;
            let next = self.expand(&frontier, &mut visited, dir, Ghost(w));
            proof {
                lemma_within_next(es, dir, s, depth as nat);
                assert(w.union(successors(es, dir, index_set(frontier@))) == within(
                    es,
                    dir,
                    s,
                    (depth + 1) as nat,
                ));
            }
            let mut j: usize = 0;
            while j < next.len()
                invariant
                    j <= next@.len(),
                    result@ == old_result + next@.subrange(0, j as int),
                    depth <= old_result.len(),
                    old_result.len() < n,
                    n <= u32::MAX,
            decreases next@.len() - j,
            {
                result.push(next[j]);
                j = j + 1;
                proof {
                    assert(result@ =~= old_result + next@.subrange(0, j as int));
                }
            }
            proof {
                let w1 = within(es, dir, s, (depth + 1) as nat);
                assert(next@.subrange(0, j as int) =~= next@);
                assert(ints(result@) =~= ints(old_result) + ints(next@));
                vstd::seq_lib::seq_to_set_distributes_over_add(ints(old_result), ints(next@));
                assert(index_set(result@) =~= index_set(old_result).union(index_set(next@)));
                lemma_within_mono(es, dir, s, 0, depth as nat);
                assert(w.contains(s));
                assert(index_set(result@) =~= w1.remove(s));
                assert forall|a: int, b: int|
                    0 <= a < ints(old_result).len() && 0 <= b < ints(next@).len() implies ints(
                        old_result,
                    )[a] != ints(next@)[b] by {
                    let x = ints(old_result)[a];
                    assert(ints(old_result).contains(x));
                    assert(index_set(old_result).contains(x));
                    assert(w.contains(x));
                    assert(ints(next@).contains(ints(next@)[b]));
                    assert(index_set(next@).contains(ints(next@)[b]));
                }
                vstd::seq_lib::lemma_no_dup_in_concat(ints(old_result), ints(next@));
                assert forall|k: int| 0 <= k < result@.len() implies result@[k] < n by {
                    if k >= old_result.len() {
                        let x = result@[k] as int;
                        assert(ints(next@)[k - old_result.len()] == x);
                        assert(index_set(next@).contains(x));
                    }
                }
                // the result is a list of distinct indices below n
                ints(result@).unique_seq_to_set();
                vstd::set_lib::lemma_int_range(0, n as int);
                let range = vstd::set_lib::set_int_range(0, n as int);
                assert(range.contains(s));
                assert(index_set(result@).subset_of(range.remove(s)));
                vstd::set_lib::lemma_len_subset(index_set(result@), range.remove(s));
                assert(ints(result@).len() == result@.len());
                assert forall|k: int| 0 <= k < next@.len() implies next@[k] < n by {
                    let x = next@[k] as int;
                    assert(ints(next@)[k] == x);
                    assert(index_set(next@).contains(x));
                }
                assert(level(es, dir, s, (depth + 1) as nat) == w1.difference(w));
                assert(w.union(ints(next@).to_set()) =~= w1);
                assert(levels - depth > 0);
                let rest = walk(es, dir, ints(next@), w1, (levels - (depth + 1)) as nat);
                assert(walk(es, dir, ints(frontier@), w, (levels - depth) as nat) == ints(next@) + rest);
                assert(ints(old_result) + (ints(next@) + rest) =~= ints(result@) + rest);
                assert forall|a: int, b: int| #![trigger result@[a], result@[b]] 0 <= a < b < result@.len()
                    implies no_farther(es, dir, s, result@[a] as int, result@[b] as int) by {
                    if b >= old_result.len() {
                        let y = result@[b] as int;
                        let x = result@[a] as int;
                        assert(ints(next@)[b - old_result.len()] == y);
                        assert(index_set(next@).contains(y));
                        assert(!w.contains(y));
                        if a < old_result.len() {
                            assert(ints(old_result)[a] == x);
                            assert(index_set(old_result).contains(x));
                            assert(w.contains(x));
                        } else {
                            assert(ints(next@)[a - old_result.len()] == x);
                            assert(index_set(next@).contains(x));
                            assert(w1.contains(x));
                        }
                        assert forall|d: nat| #[trigger] within(es, dir, s, d).contains(y)
                            implies within(es, dir, s, d).contains(x) by {
                            if d <= depth {
                                lemma_within_mono(es, dir, s, d, depth as nat);
                            } else {
                                lemma_within_mono(es, dir, s, depth as nat, d);
                                lemma_within_mono(es, dir, s, (depth + 1) as nat, d);
                            }
                        }
                    } else {
                        assert(result@[a] == old_result[a]);
                        assert(result@[b] == old_result[b]);
                    }
                }
            }
            frontier = next;
            depth = depth + 1;
        }
        result
    }


    /// `r` lists, each once, exactly the nodes a traversal from the node with
    /// identifier `id` in direction `dir` covers, apart from that node itself, in
    /// breadth-first order: a node listed later is never closer to `id` than one
    /// listed earlier, and the order is that of `bfs_order`.
    pub open spec fn traversal_ok(&self, id: Seq<char>, dir: Dir, max_depth: Option<usize>, r: Seq<&Node>) -> bool {
        let s = self.index_of(id);
        let target = self.bfs_target(s, dir, max_depth).remove(s);
        let order = self.bfs_order(s, dir, max_depth);
        &&& r.len() == order.len()
        &&& forall|k: int| #![trigger r[k]] 0 <= k < r.len() ==> self.index_of(r[k].id@) == order[k]
        &&& forall|a: int, b: int| #![trigger r[a], r[b]] 0 <= a < b < r.len() ==> no_farther(
            self.edge_seq(),
            dir,
            s,
            self.index_of(r[a].id@),
            self.index_of(r[b].id@),
        )
        &&& forall|k: int| #![trigger r[k]] 0 <= k < r.len() ==> {
            &&& target.contains(self.index_of(r[k].id@))
            &&& self.id_at(r[k].id@, self.index_of(r[k].id@))
            &&& *r[k] == self.node_seq()[self.index_of(r[k].id@)]
        }
        &&& forall|v: int| #![trigger target.contains(v)] target.contains(v) ==> exists|k: int|
            0 <= k < r.len() && self.index_of(r[k].id@) == v
        &&& forall|a: int, b: int| 0 <= a < b < r.len() ==> r[a].id@ != r[b].id@
    }

    /// The outcome of a traversal: the nodes it covers, or `NodeNotFound` when no node
    /// has identifier `id`.
    pub open spec fn traversal_outcome(&self, id: Seq<char>, dir: Dir, max_depth: Option<usize>, r: Result<Vec<&Node>, LineageError>) -> bool {
        match r {
            Ok(v) => self.has_id(id) && self.traversal_ok(id, dir, max_depth, v@),
            Err(e) => !self.has_id(id) && (e matches LineageError::NodeNotFound(m) && m@ == id),
        }
    }

    fn traverse(&self, id: &NodeId, dir: Dir, max_depth: Option<usize>) -> (r: Result<Vec<&Node>, LineageError>)
        requires
            self.wf(),
        ensures
            self.traversal_outcome(id@, dir, max_depth, r),
    {
        let start = match self.find(id) {
            Some(i) => i,
            None => {
                return Err(LineageError::NodeNotFound(id.to_string()));
            },
        };
        let idxs = self.bfs(start, dir, max_depth);
        let ghost s = start as int;
        let ghost target = self.bfs_target(s, dir, max_depth).remove(s);
        let mut r: Vec<&Node> = Vec::new();
        let mut k: usize = 0;
        while k < idxs.len()
            invariant
                self.wf(),
                s == self.index_of(id@),
                target == self.bfs_target(s, dir, max_depth).remove(s),
                k <= idxs@.len(),
                r@.len() == k,
                ints(idxs@).no_duplicates(),
                index_set(idxs@) == target,
                forall|j: int| 0 <= j < idxs@.len() ==> idxs@[j] < self.node_seq().len(),
                forall|j: int| #![trigger r@[j]] 0 <= j < k ==> *r@[j] == self.node_seq()[idxs@[j] as int]
                    && self.index_of(r@[j].id@) == idxs@[j] as int && self.id_at(r@[j].id@, idxs@[j] as int),
            decreases idxs@.len() - k,
        {
            let node = graph_node(&self.graph, idxs[k]);
            proof {
                self.lemma_index_of(node.id@, idxs@[k as int] as int);
            }
            r.push(node);
            k = k + 1;
        }
        proof {
            assert forall|j: int| #![trigger r@[j]] 0 <= j < r@.len() implies target.contains(self.index_of(r@[j].id@)) by {
                assert(ints(idxs@)[j] == idxs@[j] as int);
                assert(ints(idxs@).contains(idxs@[j] as int));
            }
            assert forall|v: int| #![trigger target.contains(v)] target.contains(v) implies exists|j: int|
                0 <= j < r@.len() && self.index_of(r@[j].id@) == v by {
                assert(index_set(idxs@).contains(v));
                let j = choose|j: int| 0 <= j < ints(idxs@).len() && ints(idxs@)[j] == v;
                assert(self.index_of(r@[j].id@) == v);
            }
            assert forall|a: int, b: int| 0 <= a < b < r@.len() implies r@[a].id@ != r@[b].id@ by {
                assert(ints(idxs@)[a] != ints(idxs@)[b]);
            }
            assert forall|k: int| #![trigger r@[k]] 0 <= k < r@.len() implies self.index_of(r@[k].id@)
                == self.bfs_order(s, dir, max_depth)[k] by {
                assert(ints(idxs@)[k] == idxs@[k] as int);
            }
            assert forall|a: int, b: int| #![trigger r@[a], r@[b]] 0 <= a < b < r@.len() implies no_farther(
                self.edge_seq(),
                dir,
                s,
                self.index_of(r@[a].id@),
                self.index_of(r@[b].id@),
            ) by {
                assert(no_farther(self.edge_seq(), dir, s, idxs@[a] as int, idxs@[b] as int));
            }
        }
        Ok(r)
    }

    /// Breadth-first walk downstream, along outgoing edges: every node reachable from
    /// `id` (within `max_depth` steps when given), each once, in the order reached.
    pub fn downstream(&self, id: &NodeId, max_depth: Option<usize>) -> (r: Result<Vec<&Node>, LineageError>)
        requires
            self.wf(),
        ensures
            self.traversal_outcome(id@, Dir::Outgoing, max_depth, r),
    {
        self.traverse(id, Dir::Outgoing, max_depth)
    }

    /// Breadth-first walk upstream, along incoming edges: every node from which `id`
    /// is reachable (within `max_depth` steps when given), each once.
    pub fn upstream(&self, id: &NodeId, max_depth: Option<usize>) -> (r: Result<Vec<&Node>, LineageError>)
        requires
            self.wf(),
        ensures
            self.traversal_outcome(id@, Dir::Incoming, max_depth, r),
    {
        self.traverse(id, Dir::Incoming, max_depth)
    }

    /// Impact analysis: every node downstream of `id`, with no depth limit.
    pub fn impact(&self, id: &NodeId) -> (r: Result<Vec<&Node>, LineageError>)
        requires
            self.wf(),
        ensures
            self.traversal_outcome(id@, Dir::Outgoing, None, r),
    {
        self.downstream(id, None)
    }


    /// Merges column names into the node with identifier `id`: each name is
    /// lower-cased and appended unless the node lists it already. Nothing changes when
    /// no node has that identifier.
    pub fn add_columns(&mut self, id: &NodeId, columns: &[String])
        requires
            old(self).wf(),
        ensures
            final(self).wf(),
            final(self).edge_seq() == old(self).edge_seq(),
            !old(self).has_id(id@) ==> final(self).node_seq() == old(self).node_seq(),
            old(self).has_id(id@) ==> {
                let i = old(self).index_of(id@);
                let old_node = old(self).node_seq()[i]@;
                &&& final(self).node_seq().len() == old(self).node_seq().len()
                &&& forall|j: int| 0 <= j < old(self).node_seq().len() && j != i
                    ==> final(self).node_seq()[j] == old(self).node_seq()[j]
                &&& final(self).node_seq()[i]@ == NodeView {
                    columns: merge_columns(old_node.columns, strings_view(columns@)),
                    ..old_node
                }
            },
    {
        match self.find(id) {
            None => {},
            Some(i) => {
                let node = graph_node(&self.graph, i);
                let mut cols: Vec<String> = node.columns.clone();
                let ghost base = strings_view(node.columns@);
                let ghost new = strings_view(columns@);
                proof {
                    assert(strings_view(cols@) =~= base);
                    assert(new.subrange(0, 0) =~= Seq::<Seq<char>>::empty());
                }
                let mut k: usize = 0;
                while k < columns.len()
                    invariant
                        k <= columns@.len(),
                        new == strings_view(columns@),
                        strings_view(cols@) == merge_columns(base, new.subrange(0, k as int)),
                    decreases columns@.len() - k,
                {
                    let lc = to_lowercase(columns[k].as_str());
                    proof {
                        assert(new.subrange(0, k + 1).drop_last() =~= new.subrange(0, k as int));
                        assert(new.subrange(0, k + 1).last() == columns@[k as int]@);
                    }
                    if !contains_string(&cols, lc.as_str()) {
                        let ghost before = cols@;
                        cols.push(lc);
                        proof {
                            assert(strings_view(cols@) =~= strings_view(before).push(lc@));
                        }
                    }
                    k = k + 1;
                }
                proof {
                    assert(new.subrange(0, k as int) =~= new);
                }
                let updated = Node {
                    id: node.id.clone(),
                    kind: node.kind,
                    source_file: node.source_file.clone(),
                    columns: cols,
                };
                let ghost old_nodes = self.node_seq();
                graph_set_node(&mut self.graph, i, updated);
                proof {
                    assert forall|a: int, b: int|
                        #![trigger self.node_seq()[a], self.node_seq()[b]]
                        0 <= a < b < self.node_seq().len() implies self.node_seq()[a].id@
                        != self.node_seq()[b].id@ by {
                        assert(old_nodes[a].id@ != old_nodes[b].id@);
                    }
                    assert forall|e: int| 0 <= e < self.edge_seq().len() implies self.edge_ok(e) by {
                        assert(old(self).edge_ok(e));
                    }
                }
            },
        }
    }

    /// The number of nodes.
    pub fn node_count(&self) -> (r: usize)
        ensures
            r == self.node_seq().len(),
    {
        graph_node_count(&self.graph)
    }

    /// The number of edges.
    pub fn edge_count(&self) -> (r: usize)
        ensures
            r == self.edge_seq().len(),
    {
        graph_edge_count(&self.graph)
    }
}

} // verus!

verus! {

impl Default for LineageGraph {
    fn default() -> (g: Self)
        ensures
            g.wf(),
            g.node_seq() == Seq::<Node>::empty(),
            g.edge_seq() == Seq::<(int, int, LineageEdge)>::empty(),
    {
        Self::new()
    }
}

impl LineageGraph {
    /// A node `b` is downstream of `a` exactly when `a` is upstream of `b`, whether
    /// the walk is limited to `d` steps or not.
    pub proof fn law_downstream_upstream_duality(&self, a: Seq<char>, b: Seq<char>, d: usize)
        requires
            self.wf(),
            self.has_id(a),
            self.has_id(b),
        ensures
            self.bfs_target(self.index_of(a), Dir::Outgoing, None).contains(self.index_of(b))
                <==> self.bfs_target(self.index_of(b), Dir::Incoming, None).contains(self.index_of(a)),
            self.bfs_target(self.index_of(a), Dir::Outgoing, Some(d)).contains(self.index_of(b))
                <==> self.bfs_target(self.index_of(b), Dir::Incoming, Some(d)).contains(self.index_of(a)),
    {
        crate::reach::law_reachable_duality(self.edge_seq(), self.index_of(a), self.index_of(b));
        crate::reach::law_within_duality(self.edge_seq(), self.index_of(a), self.index_of(b), d as nat);
    }

    /// A traversal's outcome is determined by the graph, the start, the direction
    /// and the limit: two outcomes that meet `traversal_outcome` for the same
    /// arguments are the same nodes in the same order, or the same error. So
    /// `impact(id)` gives exactly what `downstream(id, None)` gives.
    pub proof fn law_traversal_determined(
        &self,
        id: Seq<char>,
        dir: Dir,
        max_depth: Option<usize>,
        r1: Result<Vec<&Node>, LineageError>,
        r2: Result<Vec<&Node>, LineageError>,
    )
        requires
            self.wf(),
            self.traversal_outcome(id, dir, max_depth, r1),
            self.traversal_outcome(id, dir, max_depth, r2),
        ensures
            r1 is Ok <==> r2 is Ok,
            r1 matches Ok(a) ==> r2 matches Ok(b) && a@ == b@,
            r1 matches Err(e1) ==> r2 matches Err(e2) && e1 matches LineageError::NodeNotFound(m1)
                && e2 matches LineageError::NodeNotFound(m2) && m1@ == m2@,
    {
        match (r1, r2) {
            (Ok(a), Ok(b)) => {
                let s = self.index_of(id);
                let order = self.bfs_order(s, dir, max_depth);
                assert forall|k: int| 0 <= k < a@.len() implies a@[k] == b@[k] by {
                    assert(self.index_of(a@[k].id@) == order[k]);
                    assert(self.index_of(b@[k].id@) == order[k]);
                    assert(*a@[k] == self.node_seq()[self.index_of(a@[k].id@)]);
                    assert(*b@[k] == self.node_seq()[self.index_of(b@[k].id@)]);
                }
                assert(a@ =~= b@);
            },
            _ => {},
        }
    }

    /// A node added under a new identifier is what a lookup of that identifier
    /// finds afterwards, and every node found before is still found.
    pub proof fn law_added_node_found(before: &LineageGraph, after: &LineageGraph, node: Node)
        requires
            before.wf(),
            after.wf(),
            !before.has_id(node.id@),
            after.node_seq() == before.node_seq().push(node),
        ensures
            after.has_id(node.id@),
            after.node_seq()[after.index_of(node.id@)] == node,
            forall|id: Seq<char>| before.has_id(id) ==> after.has_id(id) && after.index_of(id) == before.index_of(id)
                && after.node_seq()[after.index_of(id)] == before.node_seq()[before.index_of(id)],
    {
        let n = before.node_seq().len() as int;
        assert(after.id_at(node.id@, n));
        after.lemma_index_of(node.id@, n);
        assert forall|id: Seq<char>| before.has_id(id) implies after.has_id(id) && after.index_of(id) == before.index_of(id)
            && after.node_seq()[after.index_of(id)] == before.node_seq()[before.index_of(id)] by {
            let i = choose|i: int| before.id_at(id, i);
            before.lemma_index_of(id, i);
            assert(after.node_seq()[i] == before.node_seq()[i]);
            assert(after.id_at(id, i));
            after.lemma_index_of(id, i);
        }
    }

    /// A walk limited to more steps covers at least the nodes of one limited to
    /// fewer, and an unlimited walk covers them all.
    pub proof fn law_depth_monotone(&self, s: int, dir: Dir, d1: usize, d2: usize)
        requires
            d1 <= d2,
        ensures
            self.bfs_target(s, dir, Some(d1)).subset_of(self.bfs_target(s, dir, Some(d2))),
            self.bfs_target(s, dir, Some(d2)).subset_of(self.bfs_target(s, dir, None)),
    {
        lemma_within_mono(self.edge_seq(), dir, s, d1 as nat, d2 as nat);
        assert forall|v: int| self.bfs_target(s, dir, Some(d2)).contains(v) implies self.bfs_target(s, dir, None).contains(v) by {
            assert(within(self.edge_seq(), dir, s, d2 as nat).contains(v));
        }
    }
}

/// Merging columns already present changes nothing.
proof fn lemma_merge_present(acc: Seq<Seq<char>>, new: Seq<Seq<char>>)
    requires
        forall|i: int| 0 <= i < new.len() ==> acc.contains(lowercase(#[trigger] new[i])),
    ensures
        merge_columns(acc, new) == acc,
    decreases new.len(),
{
    if new.len() > 0 {
        lemma_merge_present(acc, new.drop_last());
        assert(acc.contains(lowercase(new[new.len() - 1])));
    }
}

/// After a merge, the list holds all it held and every merged name in lower case.
proof fn lemma_merge_contains(acc: Seq<Seq<char>>, new: Seq<Seq<char>>)
    ensures
        forall|x: Seq<char>| acc.contains(x) ==> #[trigger] merge_columns(acc, new).contains(x),
        forall|i: int| 0 <= i < new.len() ==> merge_columns(acc, new).contains(lowercase(#[trigger] new[i])),
    decreases new.len(),
{
    if new.len() > 0 {
        let m = merge_columns(acc, new.drop_last());
        lemma_merge_contains(acc, new.drop_last());
        let c = lowercase(new.last());
        assert forall|x: Seq<char>| m.contains(x) implies #[trigger] merge_columns(acc, new).contains(x) by {
            if !m.contains(c) {
                let k = choose|k: int| 0 <= k < m.len() && m[k] == x;
                assert(m.push(c)[k] == x);
            }
        }
        assert forall|i: int| 0 <= i < new.len() implies merge_columns(acc, new).contains(lowercase(#[trigger] new[i])) by {
            if i < new.len() - 1 {
                assert(new.drop_last()[i] == new[i]);
                assert(m.contains(lowercase(new.drop_last()[i])));
            } else if !m.contains(c) {
                assert(m.push(c)[m.len() as int] == c);
            }
        }
    }
}

/// Adding the same columns to a node twice leaves it as adding them once.
pub proof fn law_merge_columns_idempotent(acc: Seq<Seq<char>>, new: Seq<Seq<char>>)
    ensures
        merge_columns(merge_columns(acc, new), new) == merge_columns(acc, new),
{
    lemma_merge_contains(acc, new);
    lemma_merge_present(merge_columns(acc, new), new);
}

/// A column list without repeated names keeps none after a merge.
pub proof fn law_merge_columns_no_duplicates(acc: Seq<Seq<char>>, new: Seq<Seq<char>>)
    requires
        acc.no_duplicates(),
    ensures
        merge_columns(acc, new).no_duplicates(),
    decreases new.len(),
{
    if new.len() > 0 {
        law_merge_columns_no_duplicates(acc, new.drop_last());
        let m = merge_columns(acc, new.drop_last());
        let c = lowercase(new.last());
        if !m.contains(c) {
            assert forall|a: int, b: int| 0 <= a < b < m.push(c).len() implies m.push(c)[a] != m.push(c)[b] by {
                if b == m.len() {
                    assert(m[a] != c);
                }
            }
        }
    }
}

} // verus!
