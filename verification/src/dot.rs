use vstd::prelude::*;
use vstd::string::StringExecFns;
use crate::node::{kind_label, relation_label, EdgeView, LineageEdge, Node, NodeView};
use crate::text::{contains_string, copy_str};

verus! {

/// The opening lines of a DOT document.
pub open spec fn dot_header() -> Seq<char> {
    "digraph lineage {\n"@ + "    rankdir=LR;\n"@ + "    node [shape=box, style=filled, fillcolor=lightyellow];\n"@ + "\n"@
}

/// `names` with `x` appended unless it holds it already.
pub open spec fn add_name(names: Seq<Seq<char>>, x: Seq<char>) -> Seq<Seq<char>> {
    if names.contains(x) {
        names
    } else {
        names.push(x)
    }
}

/// The names of the endpoints of `es`, each once, in the order first met (source
/// before target).
pub open spec fn endpoint_names(es: Seq<EdgeView>) -> Seq<Seq<char>>
    decreases es.len(),
{
    if es.len() == 0 {
        Seq::empty()
    } else {
        add_name(add_name(endpoint_names(es.drop_last()), es.last().source), es.last().target)
    }
}

/// The declaration of node `name`.
pub open spec fn decl_line(name: Seq<char>) -> Seq<char> {
    "    \""@ + name + "\" [label=\""@ + name + "\"];\n"@
}

/// The declarations of the nodes `names`.
pub open spec fn decl_lines(names: Seq<Seq<char>>) -> Seq<char>
    decreases names.len(),
{
    if names.len() == 0 {
        Seq::empty()
    } else {
        decl_lines(names.drop_last()) + decl_line(names.last())
    }
}

/// The line of one edge.
pub open spec fn edge_line(e: EdgeView) -> Seq<char> {
    "    \""@ + e.source + "\" -> \""@ + e.target + "\" [label=\""@ + relation_label(e.relation) + "\"];\n"@
}

/// The lines of the edges `es`.
pub open spec fn edge_lines(es: Seq<EdgeView>) -> Seq<char>
    decreases es.len(),
{
    if es.len() == 0 {
        Seq::empty()
    } else {
        edge_lines(es.drop_last()) + edge_line(es.last())
    }
}

/// The line of one node, with its kind.
pub open spec fn node_line(n: NodeView) -> Seq<char> {
    "    \""@ + n.id + "\" [label=\""@ + n.id + "\\n("@ + kind_label(n.kind) + ")\"];\n"@
}

/// The lines of the nodes `ns`.
pub open spec fn node_lines(ns: Seq<NodeView>) -> Seq<char>
    decreases ns.len(),
{
    if ns.len() == 0 {
        Seq::empty()
    } else {
        node_lines(ns.drop_last()) + node_line(ns.last())
    }
}

/// The DOT document of a list of edges: a declaration per endpoint, then a line per
/// edge labelled with its relation.
pub open spec fn dot_edges_text(es: Seq<EdgeView>) -> Seq<char> {
    dot_header() + decl_lines(endpoint_names(es)) + "\n"@ + edge_lines(es) + "}\n"@
}

/// The DOT document of a list of nodes: a line per node, labelled with its kind.
pub open spec fn dot_nodes_text(ns: Seq<NodeView>) -> Seq<char> {
    dot_header() + node_lines(ns) + "}\n"@
}

/// The abstract values of a list of edges.
pub open spec fn edge_refs_view(es: Seq<&LineageEdge>) -> Seq<EdgeView> {
    es.map_values(|e: &LineageEdge| e@)
}

/// The abstract values of a list of nodes.
pub open spec fn node_refs_view(ns: Seq<&Node>) -> Seq<NodeView> {
    ns.map_values(|n: &Node| n@)
}

fn push_header(r: &mut String)
    ensures
        final(r)@ == old(r)@ + dot_header(),
{
    let ghost r0 = r@;
    r.append("digraph lineage {\n");
    r.append("    rankdir=LR;\n");
    r.append("    node [shape=box, style=filled, fillcolor=lightyellow];\n");
    r.append("\n");
    proof {
        assert(r@ =~= r0 + dot_header());
    }
}

/// The DOT document of a list of edges.
pub fn dot_edges(edges: &[&LineageEdge]) -> (r: String)
    ensures
        r@ == dot_edges_text(edge_refs_view(edges@)),
{
    let ghost es = edge_refs_view(edges@);
    let mut names: Vec<String> = Vec::new();
    let mut i: usize = 0;
    proof {
        assert(es.take(0) =~= Seq::<EdgeView>::empty());
        assert(crate::node::strings_view(names@) =~= Seq::<Seq<char>>::empty());
    }
    while i < edges.len()
        invariant
            es == edge_refs_view(edges@),
            i <= edges@.len(),
            crate::node::strings_view(names@) == endpoint_names(es.take(i as int)),
        decreases edges@.len() - i,
    {
        let e = edges[i];
        proof {
            assert(es.take(i + 1).drop_last() =~= es.take(i as int));
            assert(es.take(i + 1).last() == e@);
        }
        let ghost n0 = crate::node::strings_view(names@);
        if !contains_string(&names, e.source.0.as_str()) {
            names.push(copy_str(e.source.0.as_str()));
            proof {
                assert(crate::node::strings_view(names@) =~= n0.push(e.source@));
            }
        }
        let ghost n1 = crate::node::strings_view(names@);
        if !contains_string(&names, e.target.0.as_str()) {
            names.push(copy_str(e.target.0.as_str()));
            proof {
                assert(crate::node::strings_view(names@) =~= n1.push(e.target@));
            }
        }
        i = i + 1;
    }
    proof {
        assert(es.take(i as int) =~= es);
    }
    let ghost nv = crate::node::strings_view(names@);
    let mut r = String::new();
    push_header(&mut r);
    let ghost r0 = r@;
    let mut k: usize = 0;
    proof {
        assert(nv.take(0) =~= Seq::<Seq<char>>::empty());
        assert(r@ =~= r0 + decl_lines(nv.take(0)));
    }
    while k < names.len()
        invariant
            nv == crate::node::strings_view(names@),
            k <= names@.len(),
            r@ == r0 + decl_lines(nv.take(k as int)),
        decreases names@.len() - k,
    {
        let ghost before = r@;
        r.append("    \"");
        r.append(names[k].as_str());
        r.append("\" [label=\"");
        r.append(names[k].as_str());
        r.append("\"];\n");
        proof {
            assert(nv.take(k + 1).drop_last() =~= nv.take(k as int));
            assert(nv.take(k + 1).last() == names@[k as int]@);
            assert(r@ =~= before + decl_line(names@[k as int]@));
        }
        k = k + 1;
    }
    proof {
        assert(nv.take(k as int) =~= nv);
    }
    r.append("\n");
    let ghost r1 = r@;
    let mut j: usize = 0;
    proof {
        assert(r@ =~= r1 + edge_lines(es.take(0)));
    }
    while j < edges.len()
        invariant
            es == edge_refs_view(edges@),
            j <= edges@.len(),
            r@ == r1 + edge_lines(es.take(j as int)),
        decreases edges@.len() - j,
    {
        let e = edges[j];
        let ghost before = r@;
        r.append("    \"");
        r.append(e.source.0.as_str());
        r.append("\" -> \"");
        r.append(e.target.0.as_str());
        r.append("\" [label=\"");
        r.append(e.relation.label());
        r.append("\"];\n");
        proof {
            assert(es.take(j + 1).drop_last() =~= es.take(j as int));
            assert(es.take(j + 1).last() == e@);
            assert(r@ =~= before + edge_line(e@));
        }
        j = j + 1;
    }
    proof {
        assert(es.take(j as int) =~= es);
    }
    r.append("}\n");
    proof {
        assert(r@ =~= dot_edges_text(es));
    }
    r
}

/// The DOT document of a list of nodes.
pub fn dot_nodes(nodes: &[&Node]) -> (r: String)
    ensures
        r@ == dot_nodes_text(node_refs_view(nodes@)),
{
    let ghost ns = node_refs_view(nodes@);
    let mut r = String::new();
    push_header(&mut r);
    let ghost r0 = r@;
    let mut i: usize = 0;
    proof {
        assert(ns.take(0) =~= Seq::<NodeView>::empty());
        assert(r@ =~= r0 + node_lines(ns.take(0)));
    }
    while i < nodes.len()
        invariant
            ns == node_refs_view(nodes@),
            i <= nodes@.len(),
            r@ == r0 + node_lines(ns.take(i as int)),
        decreases nodes@.len() - i,
    {
        let n = nodes[i];
        let ghost before = r@;
        r.append("    \"");
        r.append(n.id.0.as_str());
        r.append("\" [label=\"");
        r.append(n.id.0.as_str());
        r.append("\\n(");
        r.append(n.kind.label());
        r.append(")\"];\n");
        proof {
            assert(ns.take(i + 1).drop_last() =~= ns.take(i as int));
            assert(ns.take(i + 1).last() == n@);
            assert(r@ =~= before + node_line(n@));
        }
        i = i + 1;
    }
    proof {
        assert(ns.take(i as int) =~= ns);
    }
    r.append("}\n");
    proof {
        assert(r@ =~= dot_nodes_text(ns));
    }
    r
}

} // verus!
