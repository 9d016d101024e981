use vstd::prelude::*;
use crate::graph::LineageGraph;
use crate::node::{kind_label, strings_view, Node, NodeId, NodeKind, NodeView};
use crate::chars::lemma_take_push;
use crate::text::{contains_str, copy_str, has_substring, lowercase, str_eq, to_lowercase};

verus! {

/// The number of nodes of `ns` whose kind is displayed as `label`.
pub open spec fn count_label(ns: Seq<NodeView>, label: Seq<char>) -> nat
    decreases ns.len(),
{
    if ns.len() == 0 {
        0
    } else {
        count_label(ns.drop_last(), label) + if kind_label(ns.last().kind) == label {
            1nat
        } else {
            0nat
        }
    }
}

/// Kind labels to the number of nodes of `ns` of that kind, for the kinds present.
pub open spec fn kind_counts(ns: Seq<NodeView>) -> Map<Seq<char>, nat> {
    Map::new(
        |l: Seq<char>| exists|i: int| 0 <= i < ns.len() && kind_label(#[trigger] ns[i].kind) == l,
        |l: Seq<char>| count_label(ns, l),
    )
}

/// The columns of `cols` that contain `needle`, in order.
pub open spec fn columns_containing(cols: Seq<Seq<char>>, needle: Seq<char>) -> Seq<Seq<char>>
    decreases cols.len(),
{
    if cols.len() == 0 {
        Seq::empty()
    } else {
        columns_containing(cols.drop_last(), needle) + if has_substring(cols.last(), needle) {
            seq![cols.last()]
        } else {
            Seq::empty()
        }
    }
}

/// The abstract value of a [`ColumnMatch`].
pub struct MatchView {
    pub node_id: Seq<char>,
    pub kind: NodeKind,
    pub matched_columns: Seq<Seq<char>>,
    pub source_file: Seq<char>,
}

/// The matches of the nodes of `ns` that have columns containing `needle`, in node
/// order.
pub open spec fn column_matches_of(ns: Seq<NodeView>, needle: Seq<char>) -> Seq<MatchView>
    decreases ns.len(),
{
    if ns.len() == 0 {
        Seq::empty()
    } else {
        let n = ns.last();
        let m = columns_containing(n.columns, needle);
        column_matches_of(ns.drop_last(), needle) + if m.len() > 0 {
            seq![MatchView { node_id: n.id, kind: n.kind, matched_columns: m, source_file: n.source_file }]
        } else {
            Seq::empty()
        }
    }
}

/// Node counts by kind label, one entry per label, in the order the labels were
/// first met.
#[derive(Debug)]
pub struct KindCounts {
    entries: Vec<(String, usize)>,
}

impl KindCounts {
    /// The labels, in the order their entries were made.
    pub closed spec fn labels(&self) -> Seq<Seq<char>> {
        self.entries@.map_values(|e: (String, usize)| e.0@)
    }

    /// No label has two entries.
    pub closed spec fn wf(&self) -> bool {
        self.labels().no_duplicates()
    }

    closed spec fn slot(&self, k: Seq<char>) -> int {
        choose|i: int| 0 <= i < self.entries@.len() && self.entries@[i].0@ == k
    }

    /// Labels to counts.
    pub closed spec fn view(&self) -> Map<Seq<char>, nat> {
        Map::new(
            |k: Seq<char>| self.labels().contains(k),
            |k: Seq<char>| self.entries@[self.slot(k)].1 as nat,
        )
    }

    proof fn lemma_slot(&self, k: Seq<char>, i: int)
        requires
            self.wf(),
            0 <= i < self.entries@.len(),
            self.entries@[i].0@ == k,
        ensures
            self.slot(k) == i,
            self.labels().contains(k),
    {
        let j = self.slot(k);
        assert(self.labels()[i] == k);
        assert(0 <= j < self.entries@.len() && self.entries@[j].0@ == k);
        assert(self.labels()[j] == k);
    }

    fn new() -> (r: Self)
        ensures
            r.wf(),
            r@ == Map::<Seq<char>, nat>::empty(),
    {
        let r = KindCounts { entries: Vec::new() };
        proof {
            assert(r.labels() =~= Seq::<Seq<char>>::empty());
            assert(r@ =~= Map::<Seq<char>, nat>::empty());
        }
        r
    }

    fn find(&self, key: &str) -> (r: Option<usize>)
        requires
            self.wf(),
        ensures
            match r {
                Some(i) => i < self.entries@.len() && self.entries@[i as int].0@ == key@ && self.slot(key@) == i
                    && self.labels().contains(key@),
                None => !self.labels().contains(key@),
            },
    {
        let mut i: usize = 0;
        while i < self.entries.len()
            invariant
                self.wf(),
                i <= self.entries@.len(),
                forall|j: int| 0 <= j < i ==> self.entries@[j].0@ != key@,
            decreases self.entries@.len() - i,
        {
            if str_eq(self.entries[i].0.as_str(), key) {
                proof {
                    self.lemma_slot(key@, i as int);
                }
                return Some(i);
            }
            i = i + 1;
        }
        proof {
            if self.labels().contains(key@) {
                let j = choose|j: int| 0 <= j < self.labels().len() && self.labels()[j] == key@;
                assert(self.entries@[j].0@ == key@);
            }
        }
        None
    }

    /// The number of nodes whose kind is displayed as `kind`, if there are any.
    pub fn get(&self, kind: &str) -> (r: Option<&usize>)
        requires
            self.wf(),
        ensures
            match r {
                Some(n) => self@.contains_key(kind@) && *n as nat == self@[kind@],
                None => !self@.contains_key(kind@),
            },
    {
        match self.find(kind) {
            Some(i) => Some(&self.entries[i].1),
            None => None,
        }
    }

    /// The entries, label and count, in the order the labels were first met.
    pub fn entries(&self) -> (r: &Vec<(String, usize)>)
        ensures
            r@.map_values(|e: (String, usize)| e.0@) == self.labels(),
    {
        &self.entries
    }

    /// Counts one more under `key`.
    fn bump(&mut self, key: &str)
        requires
            old(self).wf(),
            old(self)@.contains_key(key@) ==> old(self)@[key@] < usize::MAX,
        ensures
            final(self).wf(),
            final(self)@ == old(self)@.insert(
                key@,
                if old(self)@.contains_key(key@) { old(self)@[key@] + 1 } else { 1 },
            ),
    {
        let ghost o = *self;
        match self.find(key) {
            Some(i) => {
                let n = self.entries[i].1;
                proof {
                    o.lemma_slot(key@, i as int);
                }
                let name = copy_str(key);
                self.entries.set(i, (name, n + 1));
                proof {
                    assert(self.labels() =~= o.labels());
                    assert forall|k: Seq<char>| #![trigger self@.contains_key(k)] self@.contains_key(k) implies self@[k] == o@.insert(key@, (n + 1) as nat)[k] by {
                        let j = choose|j: int| 0 <= j < self.labels().len() && self.labels()[j] == k;
                        self.lemma_slot(k, j);
                        if j != i {
                            o.lemma_slot(k, j);
                            assert(o.labels()[j] != o.labels()[i as int]);
                        }
                    }
                    self.lemma_slot(key@, i as int);
                    assert(self@.dom() =~= o@.insert(key@, (n + 1) as nat).dom());
                    assert(self@ =~= o@.insert(key@, (n + 1) as nat));
                }
            },
            None => {
                let name = copy_str(key);
                self.entries.push((name, 1));
                proof {
                    assert(self.labels() =~= o.labels().push(key@));
                    assert forall|a: int, b: int| 0 <= a < b < self.labels().len() implies self.labels()[a] != self.labels()[b] by {
                        if b == o.labels().len() {
                            assert(o.labels()[a] == self.labels()[a]);
                        }
                    }
                    let n = o.entries@.len() as int;
                    assert forall|k: Seq<char>| #![trigger self@.contains_key(k)] self@.contains_key(k) implies self@[k] == o@.insert(key@, 1nat)[k] by {
                        let j = choose|j: int| 0 <= j < self.labels().len() && self.labels()[j] == k;
                        self.lemma_slot(k, j);
                        if j < n {
                            o.lemma_slot(k, j);
                        }
                    }
                    self.lemma_slot(key@, n);
                    assert forall|k: Seq<char>| self.labels().contains(k) <==> (o.labels().contains(k) || k == key@) by {
                        if self.labels().contains(k) {
                            let j = choose|j: int| 0 <= j < self.labels().len() && self.labels()[j] == k;
                            if j < n {
                                assert(o.labels()[j] == k);
                            }
                        }
                        if o.labels().contains(k) {
                            let j = choose|j: int| 0 <= j < o.labels().len() && o.labels()[j] == k;
                            assert(self.labels()[j] == k);
                        }
                    }
                    assert(self@.dom() =~= o@.insert(key@, 1nat).dom());
                    assert(self@ =~= o@.insert(key@, 1nat));
                }
            },
        }
    }
}

/// A node that has columns matching a filter.
#[derive(Debug)]
pub struct ColumnMatch {
    pub node_id: NodeId,
    pub kind: NodeKind,
    pub matched_columns: Vec<String>,
    pub source_file: String,
}

impl View for ColumnMatch {
    type V = MatchView;

    open spec fn view(&self) -> MatchView {
        MatchView {
            node_id: self.node_id@,
            kind: self.kind,
            matched_columns: strings_view(self.matched_columns@),
            source_file: self.source_file@,
        }
    }
}

/// The abstract values of a list of matches.
pub open spec fn matches_view(v: Seq<ColumnMatch>) -> Seq<MatchView> {
    v.map_values(|m: ColumnMatch| m@)
}

/// Summary statistics of a lineage graph.
#[derive(Debug)]
pub struct StatsReport {
    pub total_nodes: usize,
    pub total_edges: usize,
    pub nodes_by_kind: KindCounts,
    pub column_matches: Vec<ColumnMatch>,
}

proof fn lemma_count_label_bounds(ns: Seq<NodeView>, l: Seq<char>)
    ensures
        count_label(ns, l) <= ns.len(),
        (forall|i: int| 0 <= i < ns.len() ==> kind_label(#[trigger] ns[i].kind) != l) ==> count_label(ns, l) == 0,
    decreases ns.len(),
{
    if ns.len() > 0 {
        lemma_count_label_bounds(ns.drop_last(), l);
        if forall|i: int| 0 <= i < ns.len() ==> kind_label(#[trigger] ns[i].kind) != l {
            assert forall|i: int| 0 <= i < ns.drop_last().len() implies kind_label(#[trigger] ns.drop_last()[i].kind) != l by {
                assert(ns.drop_last()[i] == ns[i]);
            }
            assert(kind_label(ns[ns.len() - 1].kind) != l);
        }
    }
}

proof fn lemma_kind_counts_step(ns: Seq<NodeView>, i: int)
    requires
        0 <= i < ns.len(),
    ensures
        kind_counts(ns.take(i + 1)) == kind_counts(ns.take(i)).insert(
            kind_label(ns[i].kind),
            if kind_counts(ns.take(i)).contains_key(kind_label(ns[i].kind)) {
                kind_counts(ns.take(i))[kind_label(ns[i].kind)] + 1
            } else {
                1
            },
        ),
{
    let a = ns.take(i);
    let b = ns.take(i + 1);
    let l = kind_label(ns[i].kind);
    assert(b.drop_last() =~= a);
    assert(b.last() == ns[i]);
    let lhs = kind_counts(b);
    let rhs = kind_counts(a).insert(l, if kind_counts(a).contains_key(l) { kind_counts(a)[l] + 1 } else { 1 });
    assert forall|k: Seq<char>| lhs.contains_key(k) <==> rhs.contains_key(k) by {
        if lhs.contains_key(k) {
            let j = choose|j: int| 0 <= j < b.len() && kind_label(#[trigger] b[j].kind) == k;
            if j < i {
                assert(a[j] == b[j]);
            }
        }
        if kind_counts(a).contains_key(k) {
            let j = choose|j: int| 0 <= j < a.len() && kind_label(#[trigger] a[j].kind) == k;
            assert(a[j] == b[j]);
        }
        if k == l {
            assert(b[i] == ns[i]);
        }
    }
    assert forall|k: Seq<char>| #[trigger] lhs.contains_key(k) implies lhs[k] == rhs[k] by {
        if k == l && !kind_counts(a).contains_key(k) {
            assert forall|j: int| 0 <= j < a.len() implies kind_label(#[trigger] a[j].kind) != k by {
                if kind_label(a[j].kind) == k {
                    assert(kind_counts(a).contains_key(k));
                }
            }
            lemma_count_label_bounds(a, k);
        }
    }
    assert(lhs =~= rhs);
}

/// The columns of `cols` that contain `needle`, in order.
fn matching_columns(cols: &Vec<String>, needle: &str) -> (r: Vec<String>)
    ensures
        strings_view(r@) == columns_containing(strings_view(cols@), needle@),
{
    let ghost cv = strings_view(cols@);
    let mut r: Vec<String> = Vec::new();
    let mut i: usize = 0;
    proof {
        assert(cv.take(0) =~= Seq::<Seq<char>>::empty());
        assert(strings_view(r@) =~= Seq::<Seq<char>>::empty());
    }
    while i < cols.len()
        invariant
            cv == strings_view(cols@),
            i <= cols@.len(),
            strings_view(r@) == columns_containing(cv.take(i as int), needle@),
        decreases cols@.len() - i,
    {
        let ghost before = r@;
        if contains_str(cols[i].as_str(), needle) {
            r.push(cols[i].clone());
            proof {
                assert(strings_view(r@) =~= strings_view(before).push(cols@[i as int]@));
            }
        }
        proof {
            assert(cv.take(i + 1).drop_last() =~= cv.take(i as int));
            assert(cv.take(i + 1).last() == cols@[i as int]@);
        }
        i = i + 1;
    }
    proof {
        assert(cv.take(i as int) =~= cv);
    }
    r
}

impl LineageGraph {
    /// Summary statistics: the numbers of nodes and of edges, the number of nodes of
    /// each kind, and, when a column filter is given, the nodes having columns that
    /// contain the filter in lower case, with those columns.
    pub fn stats(&self, column_filter: Option<&str>) -> (r: StatsReport)
        requires
            self.wf(),
        ensures
            r.total_nodes == self.node_seq().len(),
            r.total_edges == self.edge_seq().len(),
            r.nodes_by_kind.wf(),
            r.nodes_by_kind@ == kind_counts(self.node_views()),
            matches_view(r.column_matches@) == match column_filter {
                Some(f) => column_matches_of(self.node_views(), lowercase(f@)),
                None => Seq::empty(),
            },
    {
        let nodes = self.nodes();
        let ghost ns = self.node_views();
        let mut counts = KindCounts::new();
        let mut column_matches: Vec<ColumnMatch> = Vec::new();
        let mut i: usize = 0;
        proof {
            assert(ns.take(0) =~= Seq::<NodeView>::empty());
            assert(kind_counts(ns.take(0)) =~= Map::<Seq<char>, nat>::empty());
            assert(matches_view(column_matches@) =~= Seq::<MatchView>::empty());
        }
        while i < nodes.len()
            invariant
                self.wf(),
                ns == self.node_views(),
                nodes@.len() == self.node_seq().len(),
                forall|j: int| 0 <= j < nodes@.len() ==> *nodes@[j] == self.node_seq()[j],
                i <= nodes@.len(),
                counts.wf(),
                counts@ == kind_counts(ns.take(i as int)),
                match column_filter {
                    Some(f) => matches_view(column_matches@) == column_matches_of(ns.take(i as int), lowercase(f@)),
                    None => column_matches@.len() == 0,
                },
            decreases nodes@.len() - i,
        {
            let node = nodes[i];
            proof {
                assert(ns[i as int] == node@);
                lemma_kind_counts_step(ns, i as int);
                lemma_count_label_bounds(ns.take(i as int), kind_label(node.kind));
            }
            counts.bump(node.kind.label());
            match column_filter {
                Some(filter) => {
                    let filter_lower = to_lowercase(filter);
                    let matched = matching_columns(&node.columns, filter_lower.as_str());
                    let ghost before = column_matches@;
                    proof {
                        assert(ns.take(i + 1).drop_last() =~= ns.take(i as int));
                        assert(ns.take(i + 1).last() == node@);
                    }
                    if matched.len() > 0 {
                        let m = ColumnMatch {
                            node_id: node.id.clone(),
                            kind: node.kind,
                            matched_columns: matched,
                            source_file: node.source_file.clone(),
                        };
                        column_matches.push(m);
                        proof {
                            assert(matches_view(column_matches@) =~= matches_view(before).push(m@));
                        }
                    }
                },
                None => {},
            }
            i = i + 1;
        }
        proof {
            assert(ns.take(i as int) =~= ns);
        }
        StatsReport {
            total_nodes: self.node_count(),
            total_edges: self.edge_count(),
            nodes_by_kind: counts,
            column_matches,
        }
    }
}

/// Label and count pairs as values.
pub open spec fn pairs_view(v: Seq<(String, usize)>) -> Seq<(Seq<char>, usize)> {
    v.map_values(|e: (String, usize)| (e.0@, e.1))
}

/// The counts do not increase along `s`.
pub open spec fn sorted_by_count(s: Seq<(Seq<char>, usize)>) -> bool {
    forall|a: int, b: int| 0 <= a < b < s.len() ==> s[a].1 >= s[b].1
}

proof fn lemma_insert_sorted(before: Seq<(Seq<char>, usize)>, pos: int, x: (Seq<char>, usize))
    requires
        sorted_by_count(before),
        0 <= pos <= before.len(),
        forall|k: int| 0 <= k < pos ==> before[k].1 >= x.1,
        pos < before.len() ==> before[pos].1 < x.1,
    ensures
        sorted_by_count(before.insert(pos, x)),
        forall|y: (Seq<char>, usize)| #[trigger] before.insert(pos, x).contains(y) <==> (before.contains(y) || y == x),
{
    let after = before.insert(pos, x);
    assert forall|a: int, b: int| 0 <= a < b < after.len() implies after[a].1 >= after[b].1 by {
        if b < pos {
            assert(after[a] == before[a] && after[b] == before[b]);
        } else if a > pos {
            assert(after[a] == before[a - 1] && after[b] == before[b - 1]);
        } else if a == pos {
            assert(after[b] == before[b - 1]);
            if b - 1 > pos {
                assert(before[pos].1 >= before[b - 1].1);
            }
        } else {
            assert(after[a] == before[a]);
            if b == pos {
            } else {
                assert(after[b] == before[b - 1]);
            }
        }
    }
    assert forall|y: (Seq<char>, usize)| after.contains(y) <==> (before.contains(y) || y == x) by {
        if after.contains(y) {
            let k = choose|k: int| 0 <= k < after.len() && after[k] == y;
            if k < pos {
                assert(before[k] == y);
            } else if k > pos {
                assert(before[k - 1] == y);
            }
        }
        if before.contains(y) {
            let k = choose|k: int| 0 <= k < before.len() && before[k] == y;
            if k < pos {
                assert(after[k] == y);
            } else {
                assert(after[k + 1] == y);
            }
        }
        if y == x {
            assert(after[pos] == y);
        }
    }
}

impl KindCounts {
    /// The entries, label and count, by decreasing count.
    #[verifier::rlimit(30)]
    pub fn by_count(&self) -> (r: Vec<(String, usize)>)
        requires
            self.wf(),
        ensures
            r@.len() == self.labels().len(),
            forall|k: int| #![trigger r@[k]] 0 <= k < r@.len() ==> self@.contains_key(r@[k].0@) && self@[r@[k].0@] == r@[k].1 as nat,
            forall|l: Seq<char>| self@.contains_key(l) ==> exists|k: int| 0 <= k < r@.len() && r@[k].0@ == l,
            forall|a: int, b: int| 0 <= a < b < r@.len() ==> r@[a].1 >= r@[b].1,
    {
        let n = self.entries.len();
        let ghost ev = pairs_view(self.entries@);
        let mut r: Vec<(String, usize)> = Vec::new();
        let mut i: usize = 0;
        while i < n
            invariant
                self.wf(),
                ev == pairs_view(self.entries@),
                n == self.entries@.len(),
                i <= n,
                r@.len() == i,
                forall|k: int| 0 <= k < r@.len() ==> ev.take(i as int).contains(#[trigger] pairs_view(r@)[k]),
                forall|j: int| 0 <= j < i ==> pairs_view(r@).contains(#[trigger] ev[j]),
                sorted_by_count(pairs_view(r@)),
            decreases n - i,
        {
            let c = self.entries[i].1;
            let mut pos: usize = 0;
            while pos < r.len() && r[pos].1 >= c
                invariant
                    pos <= r@.len(),
                    forall|k: int| 0 <= k < pos ==> r@[k].1 >= c,
                decreases r@.len() - pos,
            {
                pos = pos + 1;
            }
            let ghost before = pairs_view(r@);
            let name = copy_str(self.entries[i].0.as_str());
            let ghost x = (name@, c);
            r.insert(pos, (name, c));
            proof {
                assert(x == ev[i as int]);
                assert(pairs_view(r@) =~= before.insert(pos as int, x));
                lemma_insert_sorted(before, pos as int, x);
                lemma_take_push(ev, i as int);
                assert forall|k: int| 0 <= k < r@.len() implies ev.take(i + 1).contains(#[trigger] pairs_view(r@)[k]) by {
                    let y = pairs_view(r@)[k];
                    assert(pairs_view(r@).contains(y));
                    if y != x {
                        assert(before.contains(y));
                        let m = choose|m: int| 0 <= m < before.len() && before[m] == y;
                        assert(ev.take(i as int).contains(before[m]));
                        let t = choose|t: int| 0 <= t < i && ev.take(i as int)[t] == y;
                        assert(ev.take(i + 1)[t] == y);
                    } else {
                        assert(ev.take(i + 1)[i as int] == y);
                    }
                }
                assert forall|j: int| 0 <= j < i + 1 implies pairs_view(r@).contains(#[trigger] ev[j]) by {
                    if j < i {
                        assert(before.contains(ev[j]));
                        assert(before.insert(pos as int, x).contains(ev[j]));
                    } else {
                        assert(before.insert(pos as int, x).contains(x));
                    }
                }
            }
            i = i + 1;
        }
        proof {
            assert(ev.take(i as int) =~= ev);
            assert forall|k: int| #![trigger r@[k]] 0 <= k < r@.len() implies self@.contains_key(r@[k].0@) && self@[r@[k].0@] == r@[k].1 as nat by {
                assert(ev.contains(pairs_view(r@)[k]));
                let j = choose|j: int| 0 <= j < ev.len() && ev[j] == pairs_view(r@)[k];
                self.lemma_slot(r@[k].0@, j);
            }
            assert forall|l: Seq<char>| self@.contains_key(l) implies exists|k: int| 0 <= k < r@.len() && r@[k].0@ == l by {
                let j = choose|j: int| 0 <= j < self.labels().len() && self.labels()[j] == l;
                assert(pairs_view(r@).contains(ev[j]));
                let k = choose|k: int| 0 <= k < pairs_view(r@).len() && pairs_view(r@)[k] == ev[j];
                assert(r@[k].0@ == l);
            }
            assert forall|a: int, b: int| 0 <= a < b < r@.len() implies r@[a].1 >= r@[b].1 by {
                assert(pairs_view(r@)[a].1 >= pairs_view(r@)[b].1);
            }
        }
        r
    }
}
/// Every kind present counts at least one node and at most all of them.
pub proof fn law_kind_counts_bounds(ns: Seq<NodeView>, l: Seq<char>)
    requires
        kind_counts(ns).contains_key(l),
    ensures
        1 <= kind_counts(ns)[l] <= ns.len(),
{
    lemma_count_label_bounds(ns, l);
    lemma_count_label_positive(ns, l);
}

proof fn lemma_count_label_positive(ns: Seq<NodeView>, l: Seq<char>)
    requires
        exists|i: int| 0 <= i < ns.len() && kind_label(#[trigger] ns[i].kind) == l,
    ensures
        count_label(ns, l) >= 1,
    decreases ns.len(),
{
    let i = choose|i: int| 0 <= i < ns.len() && kind_label(#[trigger] ns[i].kind) == l;
    if i < ns.len() - 1 {
        assert(ns.drop_last()[i] == ns[i]);
        lemma_count_label_positive(ns.drop_last(), l);
    }
}

} // verus!
