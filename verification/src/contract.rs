use vstd::prelude::*;
use crate::chars::{
    after_first, before_first, chars_start_with, split_acc, find_char, pieces_view, slice_chars, split_chars,
    split_on, starts_with, trim, trim_chars, lemma_concat_contains,
};
use crate::graph::LineageGraph;
use crate::node::{lineages_view, strings_view, ColumnLineage, LineageView, Node, NodeView};
use crate::text::{chars_of, contains_string, lowercase, string_from_chars, to_lowercase};

verus! {

/// `p` without one trailing carriage return.
pub open spec fn drop_cr(p: Seq<char>) -> Seq<char> {
    if p.len() > 0 && p.last() == '\r' {
        p.drop_last()
    } else {
        p
    }
}

/// The lines of `s` as `str::lines` gives them: split at each `\n`, a `\r` just
/// before a `\n` removed, and no empty last line after a final `\n`.
pub open spec fn text_lines(s: Seq<char>) -> Seq<Seq<char>> {
    let ps = split_on(s, '\n');
    let body = ps.drop_last().map_values(|p: Seq<char>| drop_cr(p));
    if ps.last().len() > 0 {
        body.push(ps.last())
    } else {
        body
    }
}

/// The characters a list value is written with besides its items.
pub open spec fn is_list_punct(c: char) -> bool {
    c == '[' || c == ']' || c == '"' || c == '\'' || c == ' '
}

/// `s` without brackets, quotes and spaces.
pub open spec fn strip_punct(s: Seq<char>) -> Seq<char>
    decreases s.len(),
{
    if s.len() == 0 {
        Seq::empty()
    } else {
        strip_punct(s.drop_last()) + if is_list_punct(s.last()) {
            Seq::empty()
        } else {
            seq![s.last()]
        }
    }
}

/// The non-empty pieces of `parts`, in lower case.
pub open spec fn lowered_nonempty(parts: Seq<Seq<char>>) -> Seq<Seq<char>>
    decreases parts.len(),
{
    if parts.len() == 0 {
        Seq::empty()
    } else {
        lowered_nonempty(parts.drop_last()) + if parts.last().len() > 0 {
            seq![lowercase(parts.last())]
        } else {
            Seq::empty()
        }
    }
}

/// The items of a list value such as `["email", "phone"]`: the comma-separated
/// words left after brackets, quotes and spaces are removed, in lower case.
pub open spec fn list_items(value: Seq<char>) -> Seq<Seq<char>> {
    lowered_nonempty(split_on(strip_punct(value), ','))
}

/// The text between the first `=` of `s` and the next `=` (or the end), when `s`
/// has an `=`.
pub open spec fn second_field(s: Seq<char>) -> Option<Seq<char>> {
    match after_first(s, '=') {
        Some(rest) => Some(before_first(rest, '=')),
        None => None,
    }
}

/// The first of `lines` that, trimmed, begins with `denied_schemas`.
pub open spec fn first_denied_line(lines: Seq<Seq<char>>) -> Option<Seq<char>>
    decreases lines.len(),
{
    if lines.len() == 0 {
        None
    } else if starts_with(trim(lines[0]), "denied_schemas"@) {
        Some(lines[0])
    } else {
        first_denied_line(lines.drop_first())
    }
}

/// The schemas a rules file denies: the items of its first `denied_schemas` line.
pub open spec fn denied_schemas(rules: Seq<char>) -> Seq<Seq<char>> {
    match first_denied_line(text_lines(rules)) {
        Some(l) => match second_field(l) {
            Some(v) => list_items(v),
            None => Seq::empty(),
        },
        None => Seq::empty(),
    }
}

/// The schema of a table name: what stands before its first dot.
pub open spec fn schema_of(name: Seq<char>) -> Seq<char> {
    before_first(name, '.')
}

/// A violation: a table, and a protected column found in it.
pub type ViolationView = (Seq<char>, Seq<char>);

/// The column lineages of `ls` whose output table is in a denied schema and whose
/// output column is protected.
pub open spec fn lineage_violations(ls: Seq<LineageView>, cols: Seq<Seq<char>>, denied: Seq<Seq<char>>) -> Seq<ViolationView>
    decreases ls.len(),
{
    if ls.len() == 0 {
        Seq::empty()
    } else {
        let l = ls.last();
        lineage_violations(ls.drop_last(), cols, denied) + if denied.contains(schema_of(l.target_table))
            && cols.contains(l.target_column) {
            seq![(l.target_table, l.target_column)]
        } else {
            Seq::empty()
        }
    }
}

/// The protected columns among `columns` of table `id`.
pub open spec fn column_hits(id: Seq<char>, columns: Seq<Seq<char>>, cols: Seq<Seq<char>>) -> Seq<ViolationView>
    decreases columns.len(),
{
    if columns.len() == 0 {
        Seq::empty()
    } else {
        column_hits(id, columns.drop_last(), cols) + if cols.contains(columns.last()) {
            seq![(id, columns.last())]
        } else {
            Seq::empty()
        }
    }
}

/// The protected columns of the nodes of `ns` that are in a denied schema.
pub open spec fn node_violations(ns: Seq<NodeView>, cols: Seq<Seq<char>>, denied: Seq<Seq<char>>) -> Seq<ViolationView>
    decreases ns.len(),
{
    if ns.len() == 0 {
        Seq::empty()
    } else {
        let n = ns.last();
        node_violations(ns.drop_last(), cols, denied) + if denied.contains(schema_of(n.id)) {
            column_hits(n.id, n.columns, cols)
        } else {
            Seq::empty()
        }
    }
}

/// The violations of one rules line: for a line that, trimmed, begins with
/// `columns` and has an `=`, with a non-empty list of columns and a non-empty list
/// of denied schemas, the lineage violations and then the node violations.
pub open spec fn line_violations(line: Seq<char>, denied: Seq<Seq<char>>, ns: Seq<NodeView>, ls: Seq<LineageView>) -> Seq<ViolationView> {
    let t = trim(line);
    if starts_with(t, "columns"@) {
        match second_field(t) {
            Some(v) => {
                let cols = list_items(v);
                if cols.len() > 0 && denied.len() > 0 {
                    lineage_violations(ls, cols, denied) + node_violations(ns, cols, denied)
                } else {
                    Seq::empty()
                }
            },
            None => Seq::empty(),
        }
    } else {
        Seq::empty()
    }
}

/// The violations of the first `n` lines, line after line.
pub open spec fn violations_upto(lines: Seq<Seq<char>>, denied: Seq<Seq<char>>, ns: Seq<NodeView>, ls: Seq<LineageView>, n: nat) -> Seq<ViolationView>
    decreases n,
{
    if n == 0 {
        Seq::empty()
    } else {
        violations_upto(lines, denied, ns, ls, (n - 1) as nat) + line_violations(lines[n - 1], denied, ns, ls)
    }
}

/// The violations a rules file finds in a graph's nodes and in column lineage.
pub open spec fn contract_violations(rules: Seq<char>, ns: Seq<NodeView>, ls: Seq<LineageView>) -> Seq<ViolationView> {
    let lines = text_lines(rules);
    violations_upto(lines, denied_schemas(rules), ns, ls, lines.len())
}

/// A protected column found in a table of a denied schema.
#[derive(Debug)]
pub struct Violation {
    pub table: String,
    pub column: String,
}

/// The abstract values of a list of violations.
pub open spec fn violations_view(v: Seq<Violation>) -> Seq<ViolationView> {
    v.map_values(|x: Violation| (x.table@, x.column@))
}

/// The lines of `s`.
fn lines_of(s: &Vec<char>) -> (r: Vec<Vec<char>>)
    ensures
        pieces_view(r@) == text_lines(s@),
{
    let ps = split_chars(s, '\n');
    let ghost pv = pieces_view(ps@);
    let n = ps.len();
    let mut r: Vec<Vec<char>> = Vec::new();
    let mut i: usize = 0;
    proof {
        assert(pieces_view(r@) =~= Seq::<Seq<char>>::empty());
        let (d, c) = split_acc(s@, '\n', s@.len());
        assert(split_on(s@, '\n') == d.push(c));
    }
    while i + 1 < n
        invariant
            pv == pieces_view(ps@),
            pv == split_on(s@, '\n'),
            n == ps@.len(),
            n >= 1,
            i + 1 <= n,
            pieces_view(r@) == pv.take(i as int).map_values(|p: Seq<char>| drop_cr(p)),
        decreases n - i,
    {
        let p = &ps[i];
        let m = p.len();
        let line = if m > 0 && p[m - 1] == '\r' {
            slice_chars(p, 0, m - 1)
        } else {
            slice_chars(p, 0, m)
        };
        proof {
            assert(pv[i as int] == p@);
            if m > 0 {
                assert(p@.drop_last() =~= p@.subrange(0, m - 1));
            }
            assert(p@.subrange(0, m as int) =~= p@);
            assert(line@ == drop_cr(pv[i as int]));
        }
        let ghost before = r@;
        r.push(line);
        proof {
            assert(pieces_view(r@) =~= pieces_view(before).push(line@));
            assert(pv.take(i + 1).map_values(|p: Seq<char>| drop_cr(p)) =~= pv.take(i as int).map_values(|p: Seq<char>| drop_cr(p)).push(drop_cr(pv[i as int])));
        }
        i = i + 1;
    }
    proof {
        assert(pv.take(i as int) =~= pv.drop_last());
        assert(pv.last() == ps@[n - 1]@);
    }
    if ps[n - 1].len() > 0 {
        let last = slice_chars(&ps[n - 1], 0, ps[n - 1].len());
        let ghost before = r@;
        r.push(last);
        proof {
            assert(ps@[n - 1]@.subrange(0, ps@[n - 1]@.len() as int) =~= ps@[n - 1]@);
            assert(pieces_view(r@) =~= pieces_view(before).push(last@));
        }
    }
    r
}

/// `s` without brackets, quotes and spaces.
fn strip_punct_chars(s: &Vec<char>) -> (r: Vec<char>)
    ensures
        r@ == strip_punct(s@),
{
    let mut r: Vec<char> = Vec::new();
    let mut i: usize = 0;
    proof {
        assert(s@.take(0) =~= Seq::<char>::empty());
    }
    while i < s.len()
        invariant
            i <= s@.len(),
            r@ == strip_punct(s@.take(i as int)),
        decreases s@.len() - i,
    {
        let c = s[i];
        let ghost before = r@;
        if !(c == '[' || c == ']' || c == '"' || c == '\'' || c == ' ') {
            r.push(c);
        }
        proof {
            assert(s@.take(i + 1).drop_last() =~= s@.take(i as int));
            assert(s@.take(i + 1).last() == c);
            assert(r@ =~= strip_punct(s@.take(i + 1)));
        }
        i = i + 1;
    }
    proof {
        assert(s@.take(i as int) =~= s@);
    }
    r
}

/// The items of a list value, in lower case.
fn list_items_of(value: &Vec<char>) -> (r: Vec<String>)
    ensures
        strings_view(r@) == list_items(value@),
{
    let stripped = strip_punct_chars(value);
    let parts = split_chars(&stripped, ',');
    let ghost pv = pieces_view(parts@);
    let mut r: Vec<String> = Vec::new();
    let mut i: usize = 0;
    proof {
        assert(pv.take(0) =~= Seq::<Seq<char>>::empty());
        assert(strings_view(r@) =~= Seq::<Seq<char>>::empty());
    }
    while i < parts.len()
        invariant
            pv == pieces_view(parts@),
            pv == split_on(stripped@, ','),
            stripped@ == strip_punct(value@),
            i <= parts@.len(),
            strings_view(r@) == lowered_nonempty(pv.take(i as int)),
        decreases parts@.len() - i,
    {
        proof {
            assert(pv.take(i + 1).drop_last() =~= pv.take(i as int));
            assert(pv.take(i + 1).last() == parts@[i as int]@);
        }
        if parts[i].len() > 0 {
            let word = string_from_chars(parts[i].as_slice());
            let lower = to_lowercase(word.as_str());
            let ghost before = r@;
            r.push(lower);
            proof {
                assert(strings_view(r@) =~= strings_view(before).push(lower@));
            }
        }
        i = i + 1;
    }
    proof {
        assert(pv.take(i as int) =~= pv);
    }
    r
}

/// The text between the first `=` of `s` and the next one, when `s` has an `=`.
fn second_field_of(s: &Vec<char>) -> (r: Option<Vec<char>>)
    ensures
        match r {
            Some(v) => second_field(s@) == Some(v@),
            None => second_field(s@) is None,
        },
{
    let a = find_char(s, '=');
    if a < s.len() {
        let rest = slice_chars(s, a + 1, s.len());
        let b = find_char(&rest, '=');
        let v = slice_chars(&rest, 0, b);
        Some(v)
    } else {
        None
    }
}

/// The items of the first line of `lines` that, trimmed, begins with
/// `denied_schemas`.
fn denied_of(lines: &Vec<Vec<char>>) -> (r: Vec<String>)
    ensures
        strings_view(r@) == match first_denied_line(pieces_view(lines@)) {
            Some(l) => match second_field(l) {
                Some(v) => list_items(v),
                None => Seq::empty(),
            },
            None => Seq::<Seq<char>>::empty(),
        },
{
    let ghost lv = pieces_view(lines@);
    let n = lines.len();
    let mut i: usize = 0;
    proof {
        assert(lv.subrange(0, n as int) =~= lv);
    }
    while i < n
        invariant
            lv == pieces_view(lines@),
            n == lines@.len(),
            i <= n,
            first_denied_line(lv) == first_denied_line(lv.subrange(i as int, n as int)),
        decreases n - i,
    {
        let t = trim_chars(&lines[i]);
        proof {
            assert(lv.subrange(i as int, n as int)[0] == lines@[i as int]@);
            assert(lv.subrange(i as int, n as int).drop_first() =~= lv.subrange(i + 1, n as int));
        }
        if chars_start_with(&t, "denied_schemas") {
            return match second_field_of(&lines[i]) {
                Some(v) => list_items_of(&v),
                None => {
                    let e: Vec<String> = Vec::new();
                    proof {
                        assert(strings_view(e@) =~= Seq::<Seq<char>>::empty());
                    }
                    e
                },
            };
        }
        i = i + 1;
    }
    let e: Vec<String> = Vec::new();
    proof {
        assert(strings_view(e@) =~= Seq::<Seq<char>>::empty());
    }
    e
}

/// The schema of a table name: what stands before its first dot.
fn schema_string(name: &str) -> (r: String)
    ensures
        r@ == schema_of(name@),
{
    let cs = chars_of(name);
    let k = find_char(&cs, '.');
    let v = slice_chars(&cs, 0, k);
    string_from_chars(v.as_slice())
}

/// Appends the violations of the column lineages `ls`.
fn push_lineage_violations(out: &mut Vec<Violation>, ls: &Vec<ColumnLineage>, cols: &Vec<String>, denied: &Vec<String>)
    ensures
        violations_view(final(out)@) == violations_view(old(out)@) + lineage_violations(
            lineages_view(ls@),
            strings_view(cols@),
            strings_view(denied@),
        ),
{
    let ghost lv = lineages_view(ls@);
    let ghost cv = strings_view(cols@);
    let ghost dv = strings_view(denied@);
    let ghost base = violations_view(out@);
    let mut i: usize = 0;
    proof {
        assert(lv.take(0) =~= Seq::<LineageView>::empty());
        assert(violations_view(out@) =~= base + lineage_violations(lv.take(0), cv, dv));
    }
    while i < ls.len()
        invariant
            lv == lineages_view(ls@),
            cv == strings_view(cols@),
            dv == strings_view(denied@),
            i <= ls@.len(),
            violations_view(out@) == base + lineage_violations(lv.take(i as int), cv, dv),
        decreases ls@.len() - i,
    {
        let cl = &ls[i];
        let schema = schema_string(cl.target_table.as_str());
        proof {
            assert(lv.take(i + 1).drop_last() =~= lv.take(i as int));
            assert(lv.take(i + 1).last() == cl@);
        }
        let ghost before = out@;
        if contains_string(denied, schema.as_str()) && contains_string(cols, cl.target_column.as_str()) {
            let v = Violation { table: cl.target_table.clone(), column: cl.target_column.clone() };
            out.push(v);
            proof {
                assert(violations_view(out@) =~= violations_view(before).push((cl.target_table@, cl.target_column@)));
            }
        }
        proof {
            assert(violations_view(out@) =~= base + lineage_violations(lv.take(i + 1), cv, dv));
        }
        i = i + 1;
    }
    proof {
        assert(lv.take(i as int) =~= lv);
    }
}

/// Appends the violations of the nodes `nodes`.
fn push_node_violations(out: &mut Vec<Violation>, nodes: &Vec<&Node>, cols: &Vec<String>, denied: &Vec<String>)
    ensures
        violations_view(final(out)@) == violations_view(old(out)@) + node_violations(
            nodes@.map_values(|n: &Node| n@),
            strings_view(cols@),
            strings_view(denied@),
        ),
{
    let ghost nv = nodes@.map_values(|n: &Node| n@);
    let ghost cv = strings_view(cols@);
    let ghost dv = strings_view(denied@);
    let ghost base = violations_view(out@);
    let mut i: usize = 0;
    proof {
        assert(nv.take(0) =~= Seq::<NodeView>::empty());
        assert(violations_view(out@) =~= base + node_violations(nv.take(0), cv, dv));
    }
    while i < nodes.len()
        invariant
            nv == nodes@.map_values(|n: &Node| n@),
            cv == strings_view(cols@),
            dv == strings_view(denied@),
            i <= nodes@.len(),
            violations_view(out@) == base + node_violations(nv.take(i as int), cv, dv),
        decreases nodes@.len() - i,
    {
        let node = nodes[i];
        let schema = schema_string(node.id.0.as_str());
        proof {
            assert(nv.take(i + 1).drop_last() =~= nv.take(i as int));
            assert(nv.take(i + 1).last() == node@);
        }
        let ghost mid = violations_view(out@);
        if contains_string(denied, schema.as_str()) {
            let ghost colv = strings_view(node.columns@);
            let mut k: usize = 0;
            proof {
                assert(colv.take(0) =~= Seq::<Seq<char>>::empty());
                assert(violations_view(out@) =~= mid + column_hits(node.id@, colv.take(0), cv));
            }
            while k < node.columns.len()
                invariant
                    colv == strings_view(node.columns@),
                    cv == strings_view(cols@),
                    k <= node.columns@.len(),
                    violations_view(out@) == mid + column_hits(node.id@, colv.take(k as int), cv),
                decreases node.columns@.len() - k,
            {
                proof {
                    assert(colv.take(k + 1).drop_last() =~= colv.take(k as int));
                    assert(colv.take(k + 1).last() == node.columns@[k as int]@);
                }
                let ghost before = out@;
                if contains_string(cols, node.columns[k].as_str()) {
                    let v = Violation { table: node.id.0.clone(), column: node.columns[k].clone() };
                    out.push(v);
                    proof {
                        assert(violations_view(out@) =~= violations_view(before).push((node.id@, node.columns@[k as int]@)));
                    }
                }
                proof {
                    assert(violations_view(out@) =~= mid + column_hits(node.id@, colv.take(k + 1), cv));
                }
                k = k + 1;
            }
            proof {
                assert(colv.take(k as int) =~= colv);
            }
        }
        proof {
            assert(violations_view(out@) =~= base + node_violations(nv.take(i + 1), cv, dv));
        }
        i = i + 1;
    }
    proof {
        assert(nv.take(i as int) =~= nv);
    }
}

/// Checks a graph and column-level lineage against a rules file, line by line.
/// Each line that, trimmed, begins with `columns` lists protected columns after
/// its `=`; the first line beginning with `denied_schemas` lists the schemas they
/// may not appear in. For each such `columns` line (when both lists are non-empty),
/// every column lineage whose output table is in a denied schema and whose output
/// column is protected is a violation, and so is every protected column of a node
/// in a denied schema.
pub fn check_contract(rules: &str, graph: &LineageGraph, col_lineage: &Vec<ColumnLineage>) -> (r: Vec<Violation>)
    requires
        graph.wf(),
    ensures
        violations_view(r@) == contract_violations(rules@, graph.node_views(), lineages_view(col_lineage@)),
{
    let rc = chars_of(rules);
    let lines = lines_of(&rc);
    let denied = denied_of(&lines);
    let nodes = graph.nodes();
    let ghost lv = pieces_view(lines@);
    let ghost dv = strings_view(denied@);
    let ghost ns = graph.node_views();
    let ghost ls = lineages_view(col_lineage@);
    proof {
        assert(nodes@.map_values(|n: &Node| n@) =~= ns);
    }
    let mut out: Vec<Violation> = Vec::new();
    let mut i: usize = 0;
    proof {
        assert(violations_view(out@) =~= Seq::<ViolationView>::empty());
    }
    while i < lines.len()
        invariant
            lv == pieces_view(lines@),
            lv == text_lines(rules@),
            dv == strings_view(denied@),
            dv == denied_schemas(rules@),
            ns == nodes@.map_values(|n: &Node| n@),
            ls == lineages_view(col_lineage@),
            i <= lines@.len(),
            violations_view(out@) == violations_upto(lv, dv, ns, ls, i as nat),
        decreases lines@.len() - i,
    {
        let t = trim_chars(&lines[i]);
        let ghost before = violations_view(out@);
        proof {
            assert(lv[i as int] == lines@[i as int]@);
        }
        if chars_start_with(&t, "columns") {
            match second_field_of(&t) {
                Some(v) => {
                    let cols = list_items_of(&v);
                    if cols.len() > 0 && denied.len() > 0 {
                        push_lineage_violations(&mut out, col_lineage, &cols, &denied);
                        push_node_violations(&mut out, &nodes, &cols, &denied);
                        proof {
                            assert(violations_view(out@) =~= before + line_violations(lv[i as int], dv, ns, ls));
                        }
                    }
                },
                None => {},
            }
        }
        proof {
            assert(violations_view(out@) =~= before + line_violations(lv[i as int], dv, ns, ls));
        }
        i = i + 1;
    }
    out
}


/// The violations found in one table are exactly its protected columns, in the
/// order the table lists them, each paired with the table: every protected
/// column is reported once, and nothing else is.
pub proof fn law_column_hits_are_protected_columns(id: Seq<char>, columns: Seq<Seq<char>>, cols: Seq<Seq<char>>)
    ensures
        column_hits(id, columns, cols) == columns.filter(|c: Seq<char>| cols.contains(c)).map_values(
            |c: Seq<char>| (id, c),
        ),
        column_hits(id, columns, cols).len() == columns.filter(|c: Seq<char>| cols.contains(c)).len(),
    decreases columns.len(),
{
    if columns.len() > 0 {
        law_column_hits_are_protected_columns(id, columns.drop_last(), cols);
        let pred = |c: Seq<char>| cols.contains(c);
        let pair = |c: Seq<char>| (id, c);
        let f = columns.drop_last().filter(pred);
        reveal(Seq::filter);
        assert(columns.filter(pred) == if pred(columns.last()) {
            f.push(columns.last())
        } else {
            f
        });
        if cols.contains(columns.last()) {
            assert(f.push(columns.last()).map_values(pair) =~= f.map_values(pair).push((id, columns.last())));
        }
        assert(column_hits(id, columns, cols) =~= columns.filter(pred).map_values(pair));
    }
}

proof fn lemma_column_hits_contain(id: Seq<char>, columns: Seq<Seq<char>>, cols: Seq<Seq<char>>, k: int)
    requires
        0 <= k < columns.len(),
        cols.contains(columns[k]),
    ensures
        column_hits(id, columns, cols).contains((id, columns[k])),
    decreases columns.len(),
{
    let last = if cols.contains(columns.last()) {
        seq![(id, columns.last())]
    } else {
        Seq::<ViolationView>::empty()
    };
    if k == columns.len() - 1 {
        assert(last[0] == (id, columns[k]));
        lemma_concat_contains(column_hits(id, columns.drop_last(), cols), last, (id, columns[k]));
    } else {
        assert(columns.drop_last()[k] == columns[k]);
        lemma_column_hits_contain(id, columns.drop_last(), cols, k);
        lemma_concat_contains(column_hits(id, columns.drop_last(), cols), last, (id, columns[k]));
    }
}

proof fn lemma_node_violations_contain(ns: Seq<NodeView>, cols: Seq<Seq<char>>, denied: Seq<Seq<char>>, j: int, k: int)
    requires
        0 <= j < ns.len(),
        denied.contains(schema_of(ns[j].id)),
        0 <= k < ns[j].columns.len(),
        cols.contains(ns[j].columns[k]),
    ensures
        node_violations(ns, cols, denied).contains((ns[j].id, ns[j].columns[k])),
    decreases ns.len(),
{
    let n = ns.last();
    let last = if denied.contains(schema_of(n.id)) {
        column_hits(n.id, n.columns, cols)
    } else {
        Seq::<ViolationView>::empty()
    };
    let x = (ns[j].id, ns[j].columns[k]);
    if j == ns.len() - 1 {
        lemma_column_hits_contain(n.id, n.columns, cols, k);
    } else {
        assert(ns.drop_last()[j] == ns[j]);
        lemma_node_violations_contain(ns.drop_last(), cols, denied, j, k);
    }
    lemma_concat_contains(node_violations(ns.drop_last(), cols, denied), last, x);
}

proof fn lemma_violations_upto_contain(
    lines: Seq<Seq<char>>,
    denied: Seq<Seq<char>>,
    ns: Seq<NodeView>,
    ls: Seq<LineageView>,
    n: nat,
    i: int,
    x: ViolationView,
)
    requires
        0 <= i < n <= lines.len(),
        line_violations(lines[i], denied, ns, ls).contains(x),
    ensures
        violations_upto(lines, denied, ns, ls, n).contains(x),
    decreases n,
{
    let prev = violations_upto(lines, denied, ns, ls, (n - 1) as nat);
    if i == n - 1 {
        lemma_concat_contains(prev, line_violations(lines[n - 1], denied, ns, ls), x);
    } else {
        lemma_violations_upto_contain(lines, denied, ns, ls, (n - 1) as nat, i, x);
        lemma_concat_contains(prev, line_violations(lines[n - 1], denied, ns, ls), x);
    }
}

/// Every protected column of a node in a denied schema is reported: when line `i`
/// of the rules is a `columns` line with a non-empty list `cols` and some schema is
/// denied, each column of each node in a denied schema that `cols` lists appears
/// among the violations, paired with the node.
pub proof fn law_protected_node_columns_reported(rules: Seq<char>, ns: Seq<NodeView>, ls: Seq<LineageView>, i: int, j: int, k: int)
    requires
        0 <= i < text_lines(rules).len(),
        starts_with(trim(text_lines(rules)[i]), "columns"@),
        second_field(trim(text_lines(rules)[i])) is Some,
        list_items(second_field(trim(text_lines(rules)[i]))->0).len() > 0,
        denied_schemas(rules).len() > 0,
        0 <= j < ns.len(),
        denied_schemas(rules).contains(schema_of(ns[j].id)),
        0 <= k < ns[j].columns.len(),
        list_items(second_field(trim(text_lines(rules)[i]))->0).contains(ns[j].columns[k]),
    ensures
        contract_violations(rules, ns, ls).contains((ns[j].id, ns[j].columns[k])),
{
    let lines = text_lines(rules);
    let denied = denied_schemas(rules);
    let cols = list_items(second_field(trim(lines[i]))->0);
    let x = (ns[j].id, ns[j].columns[k]);
    lemma_node_violations_contain(ns, cols, denied, j, k);
    lemma_concat_contains(lineage_violations(ls, cols, denied), node_violations(ns, cols, denied), x);
    lemma_violations_upto_contain(lines, denied, ns, ls, lines.len(), i, x);
}

} // verus!
