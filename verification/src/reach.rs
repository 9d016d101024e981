use vstd::prelude::*;
use crate::node::LineageEdge;
use crate::graph::{neighbor_list, Dir};

verus! {

/// Edge `e` leads from `u` to `v` when followed in direction `dir`.
pub open spec fn edge_step(e: (int, int, LineageEdge), dir: Dir, u: int, v: int) -> bool {
    if dir == Dir::Outgoing {
        e.0 == u && e.1 == v
    } else {
        e.1 == u && e.0 == v
    }
}

/// Some edge leads from `u` to `v` in direction `dir`.
pub open spec fn step(es: Seq<(int, int, LineageEdge)>, dir: Dir, u: int, v: int) -> bool {
    exists|k: int| 0 <= k < es.len() && #[trigger] edge_step(es[k], dir, u, v)
}

/// The nodes one step away from some node of `s`.
pub open spec fn successors(es: Seq<(int, int, LineageEdge)>, dir: Dir, s: Set<int>) -> Set<int> {
    Set::new(|v: int| exists|u: int| s.contains(u) && #[trigger] step(es, dir, u, v))
}

/// The nodes at most `d` steps away from `s` in direction `dir` (`s` itself included).
pub open spec fn within(es: Seq<(int, int, LineageEdge)>, dir: Dir, s: int, d: nat) -> Set<int>
    decreases d,
{
    if d == 0 {
        set![s]
    } else {
        let prev = within(es, dir, s, (d - 1) as nat);
        prev.union(successors(es, dir, prev))
    }
}

/// The nodes exactly `d` steps away from `s`, and no fewer.
pub open spec fn level(es: Seq<(int, int, LineageEdge)>, dir: Dir, s: int, d: nat) -> Set<int> {
    if d == 0 {
        set![s]
    } else {
        within(es, dir, s, d).difference(within(es, dir, s, (d - 1) as nat))
    }
}

/// Node `x` is no farther than node `y` from `s`: any number of steps that reaches
/// `y` from `s` also reaches `x`.
pub open spec fn no_farther(es: Seq<(int, int, LineageEdge)>, dir: Dir, s: int, x: int, y: int) -> bool {
    forall|d: nat| #[trigger] within(es, dir, s, d).contains(y) ==> within(es, dir, s, d).contains(x)
}

/// The nodes of `ns` not in `seen`, each once, in the order they first appear.
pub open spec fn fresh_from(ns: Seq<int>, seen: Set<int>) -> Seq<int>
    decreases ns.len(),
{
    if ns.len() == 0 {
        Seq::empty()
    } else {
        let p = fresh_from(ns.drop_last(), seen);
        if seen.contains(ns.last()) || p.contains(ns.last()) {
            p
        } else {
            p.push(ns.last())
        }
    }
}

/// The next level of a breadth-first walk: for each node of `frontier` in turn,
/// its neighbours in direction `dir`, in the graph's neighbour order, leaving out
/// those in `seen` and those listed already.
pub open spec fn next_level(es: Seq<(int, int, LineageEdge)>, dir: Dir, frontier: Seq<int>, seen: Set<int>) -> Seq<int>
    decreases frontier.len(),
{
    if frontier.len() == 0 {
        Seq::empty()
    } else {
        let p = next_level(es, dir, frontier.drop_last(), seen);
        p + fresh_from(neighbor_list(es, frontier.last(), dir), seen.union(p.to_set()))
    }
}

/// The nodes a breadth-first walk lists after the level `frontier`, `seen` being
/// visited already, going at most `levels` levels further: each next level in turn,
/// until one is empty.
pub open spec fn walk(es: Seq<(int, int, LineageEdge)>, dir: Dir, frontier: Seq<int>, seen: Set<int>, levels: nat) -> Seq<int>
    decreases levels,
{
    if levels == 0 || frontier.len() == 0 {
        Seq::empty()
    } else {
        let next = next_level(es, dir, frontier, seen);
        next + walk(es, dir, next, seen.union(next.to_set()), (levels - 1) as nat)
    }
}

/// The nodes reachable from `s` in direction `dir` by any number of steps.
pub open spec fn reachable(es: Seq<(int, int, LineageEdge)>, dir: Dir, s: int) -> Set<int> {
    Set::new(|v: int| exists|d: nat| #[trigger] within(es, dir, s, d).contains(v))
}

/// The neighbour list of a node holds exactly the nodes one step away from it.
pub proof fn lemma_neighbor_list(es: Seq<(int, int, LineageEdge)>, i: int, dir: Dir, v: int)
    ensures
        neighbor_list(es, i, dir).contains(v) <==> step(es, dir, i, v),
    decreases es.len(),
{
    if es.len() > 0 {
        let rest = es.drop_last();
        lemma_neighbor_list(rest, i, dir, v);
        let e = es.last();
        if step(rest, dir, i, v) {
            let k = choose|k: int| 0 <= k < rest.len() && #[trigger] edge_step(rest[k], dir, i, v);
            assert(es[k] == rest[k]);
        }
        if step(es, dir, i, v) {
            let k = choose|k: int| 0 <= k < es.len() && #[trigger] edge_step(es[k], dir, i, v);
            if k < rest.len() {
                assert(rest[k] == es[k]);
                assert(step(rest, dir, i, v));
            }
        }
        assert(edge_step(e, dir, i, v) ==> edge_step(es[es.len() - 1], dir, i, v));
        let nl = neighbor_list(es, i, dir);
        let nr = neighbor_list(rest, i, dir);
        if dir == Dir::Outgoing && e.0 == i {
            assert(nl == seq![e.1] + nr);
            assert(nl.contains(v) <==> (v == e.1 || nr.contains(v))) by {
                if nl.contains(v) {
                    let j = choose|j: int| 0 <= j < nl.len() && nl[j] == v;
                    if j > 0 {
                        assert(nr[j - 1] == v);
                    }
                }
                if nr.contains(v) {
                    let j = choose|j: int| 0 <= j < nr.len() && nr[j] == v;
                    assert(nl[j + 1] == v);
                }
                if v == e.1 {
                    assert(nl[0] == v);
                }
            }
        } else if dir == Dir::Incoming && e.1 == i {
            assert(nl == seq![e.0] + nr);
            assert(nl.contains(v) <==> (v == e.0 || nr.contains(v))) by {
                if nl.contains(v) {
                    let j = choose|j: int| 0 <= j < nl.len() && nl[j] == v;
                    if j > 0 {
                        assert(nr[j - 1] == v);
                    }
                }
                if nr.contains(v) {
                    let j = choose|j: int| 0 <= j < nr.len() && nr[j] == v;
                    assert(nl[j + 1] == v);
                }
                if v == e.0 {
                    assert(nl[0] == v);
                }
            }
        }
    }
}

/// `within` grows with the number of steps.
pub proof fn lemma_within_mono(es: Seq<(int, int, LineageEdge)>, dir: Dir, s: int, d1: nat, d2: nat)
    requires
        d1 <= d2,
    ensures
        within(es, dir, s, d1).subset_of(within(es, dir, s, d2)),
    decreases d2,
{
    if d1 < d2 {
        lemma_within_mono(es, dir, s, d1, (d2 - 1) as nat);
    }
}

/// One more step adds exactly the successors of the last level.
pub proof fn lemma_within_next(es: Seq<(int, int, LineageEdge)>, dir: Dir, s: int, d: nat)
    ensures
        within(es, dir, s, d + 1) == within(es, dir, s, d).union(
            successors(es, dir, level(es, dir, s, d)),
        ),
{
    let w = within(es, dir, s, d);
    let w1 = within(es, dir, s, d + 1);
    let l = level(es, dir, s, d);
    assert(w1 == w.union(successors(es, dir, w)));
    assert forall|v: int| successors(es, dir, w).contains(v) implies w.union(
        successors(es, dir, l),
    ).contains(v) by {
        let u = choose|u: int| w.contains(u) && #[trigger] step(es, dir, u, v);
        if !l.contains(u) {
            assert(d > 0);
            let p = within(es, dir, s, (d - 1) as nat);
            assert(p.contains(u));
            assert(successors(es, dir, p).contains(v));
        } else {
            assert(successors(es, dir, l).contains(v));
        }
    }
    assert forall|v: int| successors(es, dir, l).contains(v) implies successors(
        es,
        dir,
        w,
    ).contains(v) by {
        let u = choose|u: int| l.contains(u) && #[trigger] step(es, dir, u, v);
        assert(w.contains(u));
    }
    assert(w1 =~= w.union(successors(es, dir, l)));
}

/// Once a step adds nothing, no later step adds anything.
pub proof fn lemma_within_fixpoint(
    es: Seq<(int, int, LineageEdge)>,
    dir: Dir,
    s: int,
    d: nat,
    k: nat,
)
    requires
        within(es, dir, s, d + 1) == within(es, dir, s, d),
        d <= k,
    ensures
        within(es, dir, s, k) == within(es, dir, s, d),
    decreases k,
{
    if d < k {
        lemma_within_fixpoint(es, dir, s, d, (k - 1) as nat);
    }
}

/// Once a step adds nothing, `within` holds every reachable node.
pub proof fn lemma_reachable_fixpoint(es: Seq<(int, int, LineageEdge)>, dir: Dir, s: int, d: nat)
    requires
        within(es, dir, s, d + 1) == within(es, dir, s, d),
    ensures
        reachable(es, dir, s) == within(es, dir, s, d),
{
    assert forall|v: int| reachable(es, dir, s).contains(v) implies within(
        es,
        dir,
        s,
        d,
    ).contains(v) by {
        let k = choose|k: nat| #[trigger] within(es, dir, s, k).contains(v);
        if k <= d {
            lemma_within_mono(es, dir, s, k, d);
        } else {
            lemma_within_fixpoint(es, dir, s, d, k);
        }
    }
    assert forall|v: int| within(es, dir, s, d).contains(v) implies reachable(
        es,
        dir,
        s,
    ).contains(v) by {
        assert(within(es, dir, s, d).contains(v));
    }
    assert(reachable(es, dir, s) =~= within(es, dir, s, d));
}

} // verus!

verus! {

/// The node itself is always within any number of steps of itself.
pub proof fn lemma_within_self(es: Seq<(int, int, LineageEdge)>, dir: Dir, s: int, d: nat)
    ensures
        within(es, dir, s, d).contains(s),
{
    lemma_within_mono(es, dir, s, 0, d);
}

/// Within `d + 1` steps of `s` lie `s` and what lies within `d` steps of a node one
/// step from `s`.
pub proof fn lemma_within_first_step(es: Seq<(int, int, LineageEdge)>, dir: Dir, s: int, t: int, d: nat)
    ensures
        within(es, dir, s, d + 1).contains(t) <==> (t == s || exists|v: int|
            #[trigger] step(es, dir, s, v) && within(es, dir, v, d).contains(t)),
    decreases d,
{
    if d == 0 {
        let w0 = within(es, dir, s, 0);
        assert(w0 =~= set![s]);
        if within(es, dir, s, 1).contains(t) && t != s {
            let u = choose|u: int| w0.contains(u) && #[trigger] step(es, dir, u, t);
            assert(u == s);
            assert(within(es, dir, t, 0).contains(t));
        }
        if exists|v: int| #[trigger] step(es, dir, s, v) && within(es, dir, v, 0).contains(t) {
            let v = choose|v: int| #[trigger] step(es, dir, s, v) && within(es, dir, v, 0).contains(t);
            assert(within(es, dir, v, 0) =~= set![v]);
            assert(successors(es, dir, w0).contains(t));
        }
    } else {
        let dm = (d - 1) as nat;
        let ws = within(es, dir, s, d);
        if within(es, dir, s, d + 1).contains(t) && t != s {
            if ws.contains(t) {
                lemma_within_first_step(es, dir, s, t, dm);
                let v = choose|v: int| #[trigger] step(es, dir, s, v) && within(es, dir, v, dm).contains(t);
                lemma_within_mono(es, dir, v, dm, d);
            } else {
                let u = choose|u: int| ws.contains(u) && #[trigger] step(es, dir, u, t);
                lemma_within_first_step(es, dir, s, u, dm);
                if u == s {
                    lemma_within_self(es, dir, t, d);
                    assert(step(es, dir, s, t) && within(es, dir, t, d).contains(t));
                } else {
                    let v = choose|v: int| #[trigger] step(es, dir, s, v) && within(es, dir, v, dm).contains(u);
                    assert(successors(es, dir, within(es, dir, v, dm)).contains(t));
                    assert(within(es, dir, v, d).contains(t));
                }
            }
        }
        if exists|v: int| #[trigger] step(es, dir, s, v) && within(es, dir, v, d).contains(t) {
            let v = choose|v: int| #[trigger] step(es, dir, s, v) && within(es, dir, v, d).contains(t);
            let wv = within(es, dir, v, dm);
            if wv.contains(t) {
                lemma_within_first_step(es, dir, s, t, dm);
                assert(ws.contains(t));
            } else {
                let u = choose|u: int| wv.contains(u) && #[trigger] step(es, dir, u, t);
                lemma_within_first_step(es, dir, s, u, dm);
                assert(ws.contains(u));
                assert(successors(es, dir, ws).contains(t));
            }
        }
        if t == s {
            lemma_within_self(es, dir, s, d + 1);
        }
    }
}

/// Following edges forward `d` steps from `s` reaches `t` exactly when following
/// them backward `d` steps from `t` reaches `s`.
pub proof fn law_within_duality(es: Seq<(int, int, LineageEdge)>, s: int, t: int, d: nat)
    ensures
        within(es, Dir::Outgoing, s, d).contains(t) <==> within(es, Dir::Incoming, t, d).contains(s),
    decreases d,
{
    if d > 0 {
        let dm = (d - 1) as nat;
        let wo = within(es, Dir::Outgoing, s, dm);
        law_within_duality(es, s, t, dm);
        lemma_within_first_step(es, Dir::Incoming, t, s, dm);
        if within(es, Dir::Outgoing, s, d).contains(t) && !wo.contains(t) {
            let u = choose|u: int| wo.contains(u) && #[trigger] step(es, Dir::Outgoing, u, t);
            law_within_duality(es, s, u, dm);
            let k = choose|k: int| 0 <= k < es.len() && #[trigger] edge_step(es[k], Dir::Outgoing, u, t);
            assert(edge_step(es[k], Dir::Incoming, t, u));
            assert(step(es, Dir::Incoming, t, u));
        }
        if within(es, Dir::Incoming, t, d).contains(s) && !within(es, Dir::Incoming, t, dm).contains(s) && s != t {
            let u = choose|u: int| #[trigger] step(es, Dir::Incoming, t, u) && within(es, Dir::Incoming, u, dm).contains(s);
            law_within_duality(es, s, u, dm);
            let k = choose|k: int| 0 <= k < es.len() && #[trigger] edge_step(es[k], Dir::Incoming, t, u);
            assert(edge_step(es[k], Dir::Outgoing, u, t));
            assert(step(es, Dir::Outgoing, u, t));
            assert(successors(es, Dir::Outgoing, wo).contains(t));
        }
        if within(es, Dir::Incoming, t, dm).contains(s) {
            lemma_within_mono(es, Dir::Incoming, t, dm, d);
        }
        if s == t {
            lemma_within_self(es, Dir::Outgoing, s, d);
        }
    }
}

/// `t` is reachable downstream from `s` exactly when `s` is reachable upstream from
/// `t`.
pub proof fn law_reachable_duality(es: Seq<(int, int, LineageEdge)>, s: int, t: int)
    ensures
        reachable(es, Dir::Outgoing, s).contains(t) <==> reachable(es, Dir::Incoming, t).contains(s),
{
    if reachable(es, Dir::Outgoing, s).contains(t) {
        let d = choose|d: nat| #[trigger] within(es, Dir::Outgoing, s, d).contains(t);
        law_within_duality(es, s, t, d);
        assert(within(es, Dir::Incoming, t, d).contains(s));
    }
    if reachable(es, Dir::Incoming, t).contains(s) {
        let d = choose|d: nat| #[trigger] within(es, Dir::Incoming, t, d).contains(s);
        law_within_duality(es, s, t, d);
        assert(within(es, Dir::Outgoing, s, d).contains(t));
    }
}

} // verus!
