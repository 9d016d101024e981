use vstd::prelude::*;
use crate::node::{strings_view, EdgeRelation, EdgeView, LineageEdge, NodeId};
use crate::sql_ast::{SqlCte, SqlExpr, SqlExprKind, SqlQuery, SqlSelect, SqlSelectItem, SqlSetExpr, SqlStatement, SqlTableFactor, SqlTableWithJoins};
use crate::colmap::ColumnMap;
use crate::chars::lemma_concat_contains;
use crate::sql_parse::{parse_sql, parsed_sql};
use crate::text::{ascii_case_eq, contains_str, copy_str, eq_ignore_ascii_case, has_substring, join_dot, join_with_dots, lowercase, to_lowercase};

verus! {

/// A name's dotted parts joined into one string.
pub open spec fn name_text(parts: Seq<String>) -> Seq<char> {
    join_dot(strings_view(parts))
}

/// Source tables found in a query, each with the relation under which it is read.
pub type Sources = Seq<(Seq<char>, EdgeRelation)>;

/// The abstract value of a list of found source tables.
pub open spec fn found_view(v: Seq<(String, EdgeRelation)>) -> Sources {
    v.map_values(|p: (String, EdgeRelation)| (p.0@, p.1))
}

/// The names of a list of common table expressions.
pub open spec fn cte_names(cs: Seq<SqlCte>) -> Seq<Seq<char>> {
    cs.map_values(|c: SqlCte| c.name@)
}

/// One of the names matches `t`, ignoring ASCII case.
pub open spec fn names_match(names: Seq<Seq<char>>, t: Seq<char>) -> bool {
    exists|i: int| 0 <= i < names.len() && ascii_case_eq(names[i], t)
}

/// The source tables of a query: the tables it reads that are not its own common
/// table expressions.
pub open spec fn query_sources(q: SqlQuery) -> Sources {
    query_sources_in(q, Seq::empty())
}

/// The source tables of a query within which the CTE names `outer` are in scope:
/// those read in the bodies of its common table expressions, then those of its
/// body. A table reference that names a CTE in scope is left out; in scope are
/// `outer` and, in the body, all of the query's own CTEs, in the body of one of
/// them, that one and those before it.
pub open spec fn query_sources_in(q: SqlQuery, outer: Seq<Seq<char>>) -> Sources
    decreases q,
{
    cte_body_sources(q.ctes@, outer) + set_expr_sources(*q.body, outer + cte_names(q.ctes@))
}

/// The source tables read in the bodies of a list of common table expressions,
/// each read with `outer`, its own name and the names before it in scope.
pub open spec fn cte_body_sources(cs: Seq<SqlCte>, outer: Seq<Seq<char>>) -> Sources
    decreases cs,
{
    if cs.len() == 0 {
        Seq::empty()
    } else {
        cte_body_sources(cs.drop_last(), outer) + query_sources_in(*cs[cs.len() - 1].query, outer + cte_names(cs))
    }
}

/// The source tables of a query body, the CTE names `names` in scope; a
/// parenthesised query keeps them in scope.
pub open spec fn set_expr_sources(e: SqlSetExpr, names: Seq<Seq<char>>) -> Sources
    decreases e,
{
    match e {
        SqlSetExpr::Select(s) => from_sources(s.from@, names),
        SqlSetExpr::Query(q) => query_sources_in(*q, names),
        SqlSetExpr::SetOperation(l, r) => set_expr_sources(*l, names) + set_expr_sources(*r, names),
        SqlSetExpr::Other => Seq::empty(),
    }
}

/// The source tables of a list of `FROM` items, in order.
pub open spec fn from_sources(ts: Seq<SqlTableWithJoins>, names: Seq<Seq<char>>) -> Sources
    decreases ts,
{
    if ts.len() == 0 {
        Seq::empty()
    } else {
        from_sources(ts.drop_last(), names) + twj_sources(ts.last(), names)
    }
}

/// The source tables of a `FROM` item: its table, then its joined tables.
pub open spec fn twj_sources(t: SqlTableWithJoins, names: Seq<Seq<char>>) -> Sources
    decreases t,
{
    factor_sources(t.relation, names, false) + joins_sources(t.joins@, names)
}

/// The source tables of a list of joined tables.
pub open spec fn joins_sources(js: Seq<SqlTableFactor>, names: Seq<Seq<char>>) -> Sources
    decreases js,
{
    if js.len() == 0 {
        Seq::empty()
    } else {
        joins_sources(js.drop_last(), names) + factor_sources(js.last(), names, true)
    }
}

/// The source tables of a table reference: a named table (read by `JOIN` or by
/// `FROM`) unless it names a CTE in scope; the sources of a subquery, the same
/// names in scope; those of a parenthesised join.
pub open spec fn factor_sources(f: SqlTableFactor, names: Seq<Seq<char>>, is_join: bool) -> Sources
    decreases f,
{
    match f {
        SqlTableFactor::Table { name, .. } => if names_match(names, name_text(name@)) {
            Seq::empty()
        } else {
            seq![(name_text(name@), if is_join { EdgeRelation::JoinOn } else { EdgeRelation::SelectFrom })]
        },
        SqlTableFactor::Derived(q) => query_sources_in(*q, names),
        SqlTableFactor::NestedJoin(t) => twj_sources(*t, names),
        SqlTableFactor::Other => Seq::empty(),
    }
}


fn append_sources(dst: &mut Vec<(String, EdgeRelation)>, src: Vec<(String, EdgeRelation)>)
    ensures
        found_view(final(dst)@) == found_view(old(dst)@) + found_view(src@),
{
    let mut src = src;
    let ghost s0 = src@;
    dst.append(&mut src);
    proof {
        assert(found_view(dst@) =~= found_view(old(dst)@) + found_view(s0));
    }
}

fn names_match_exec(names: &Vec<String>, t: &str) -> (r: bool)
    ensures
        r == names_match(strings_view(names@), t@),
{
    let mut i: usize = 0;
    while i < names.len()
        invariant
            i <= names@.len(),
            forall|j: int| 0 <= j < i ==> !ascii_case_eq(names@[j]@, t@),
        decreases names@.len() - i,
    {
        if eq_ignore_ascii_case(names[i].as_str(), t) {
            proof {
                assert(strings_view(names@)[i as int] == names@[i as int]@);
            }
            return true;
        }
        i = i + 1;
    }
    proof {
        if names_match(strings_view(names@), t@) {
            let j = choose|j: int| 0 <= j < strings_view(names@).len() && ascii_case_eq(strings_view(names@)[j], t@);
            assert(strings_view(names@)[j] == names@[j]@);
        }
    }
    false
}

/// A copy of a list of names.
fn copy_names(v: &Vec<String>) -> (r: Vec<String>)
    ensures
        strings_view(r@) == strings_view(v@),
{
    let mut r: Vec<String> = Vec::new();
    let mut i: usize = 0;
    while i < v.len()
        invariant
            i <= v@.len(),
            strings_view(r@) == strings_view(v@).subrange(0, i as int),
        decreases v@.len() - i,
    {
        let ghost before = r@;
        r.push(v[i].clone());
        proof {
            assert(strings_view(r@) =~= strings_view(before).push(v@[i as int]@));
            assert(strings_view(v@).subrange(0, i + 1) =~= strings_view(v@).subrange(0, i as int).push(v@[i as int]@));
        }
        i = i + 1;
    }
    proof {
        assert(strings_view(v@).subrange(0, i as int) =~= strings_view(v@));
    }
    r
}

/// The source tables of a query, the CTE names `outer` in scope, as
/// `query_sources_in` states.
fn query_sources_exec(q: &SqlQuery, outer: &Vec<String>) -> (r: Vec<(String, EdgeRelation)>)
    ensures
        found_view(r@) == query_sources_in(*q, strings_view(outer@)),
    decreases q,
{
    let ghost o = strings_view(outer@);
    let mut sources: Vec<(String, EdgeRelation)> = Vec::new();
    let mut names: Vec<String> = copy_names(outer);
    let mut i: usize = 0;
    proof {
        assert(found_view(sources@) =~= cte_body_sources(q.ctes@.subrange(0, 0), o));
        assert(cte_names(q.ctes@.subrange(0, 0)) =~= Seq::<Seq<char>>::empty());
        assert(strings_view(names@) =~= o + cte_names(q.ctes@.subrange(0, 0)));
    }
    while i < q.ctes.len()
        invariant
            i <= q.ctes@.len(),
            o == strings_view(outer@),
            found_view(sources@) == cte_body_sources(q.ctes@.subrange(0, i as int), o),
            strings_view(names@) == o + cte_names(q.ctes@.subrange(0, i as int)),
        decreases q.ctes@.len() - i,
    {
        let cte = &q.ctes[i];
        let ghost before = names@;
        names.push(cte.name.clone());
        proof {
            let cs = q.ctes@.subrange(0, i + 1);
            assert(cs.drop_last() =~= q.ctes@.subrange(0, i as int));
            assert(cs[cs.len() - 1] == q.ctes@[i as int]);
            assert(cte_names(cs) =~= cte_names(q.ctes@.subrange(0, i as int)).push(cte.name@));
            assert(strings_view(names@) =~= strings_view(before).push(cte.name@));
            assert(strings_view(names@) =~= o + cte_names(cs));
            assert(decreases_to!(q => q.ctes));
        }
        let found = query_sources_exec(&cte.query, &names);
        append_sources(&mut sources, found);
        i = i + 1;
    }
    proof {
        assert(q.ctes@.subrange(0, i as int) =~= q.ctes@);
    }
    let body = set_expr_sources_exec(&q.body, &names);
    append_sources(&mut sources, body);
    sources
}

/// The source tables of a query, as `query_sources` states.
fn top_query_sources(q: &SqlQuery) -> (r: Vec<(String, EdgeRelation)>)
    ensures
        found_view(r@) == query_sources(*q),
{
    let none: Vec<String> = Vec::new();
    proof {
        assert(strings_view(none@) =~= Seq::<Seq<char>>::empty());
    }
    query_sources_exec(q, &none)
}

/// The source tables of a query body, as `set_expr_sources` states.
fn set_expr_sources_exec(e: &SqlSetExpr, names: &Vec<String>) -> (r: Vec<(String, EdgeRelation)>)
    ensures
        found_view(r@) == set_expr_sources(*e, strings_view(names@)),
    decreases e,
{
    match e {
        SqlSetExpr::Select(s) => from_sources_exec(&s.from, names),
        SqlSetExpr::Query(q) => query_sources_exec(q, names),
        SqlSetExpr::SetOperation(l, r) => {
            let mut a = set_expr_sources_exec(l, names);
            let b = set_expr_sources_exec(r, names);
            append_sources(&mut a, b);
            a
        },
        SqlSetExpr::Other => Vec::new(),
    }
}

/// The source tables of a list of `FROM` items, as `from_sources` states.
fn from_sources_exec(ts: &Vec<SqlTableWithJoins>, names: &Vec<String>) -> (r: Vec<(String, EdgeRelation)>)
    ensures
        found_view(r@) == from_sources(ts@, strings_view(names@)),
    decreases ts,
{
    let mut sources: Vec<(String, EdgeRelation)> = Vec::new();
    let mut i: usize = 0;
    proof {
        assert(found_view(sources@) =~= from_sources(ts@.subrange(0, 0), strings_view(names@)));
    }
    while i < ts.len()
        invariant
            i <= ts@.len(),
            found_view(sources@) == from_sources(ts@.subrange(0, i as int), strings_view(names@)),
        decreases ts@.len() - i,
    {
        proof {
            assert(ts@.subrange(0, i + 1).drop_last() =~= ts@.subrange(0, i as int));
        }
        let found = twj_sources_exec(&ts[i], names);
        append_sources(&mut sources, found);
        i = i + 1;
    }
    proof {
        assert(ts@.subrange(0, i as int) =~= ts@);
    }
    sources
}

/// The source tables of a `FROM` item, as `twj_sources` states.
fn twj_sources_exec(t: &SqlTableWithJoins, names: &Vec<String>) -> (r: Vec<(String, EdgeRelation)>)
    ensures
        found_view(r@) == twj_sources(*t, strings_view(names@)),
    decreases t,
{
    let mut sources = factor_sources_exec(&t.relation, names, false);
    let ghost first = found_view(sources@);
    let mut i: usize = 0;
    proof {
        assert(joins_sources(t.joins@.subrange(0, 0), strings_view(names@)) =~= Seq::empty());
        assert(found_view(sources@) =~= first + joins_sources(t.joins@.subrange(0, 0), strings_view(names@)));
    }
    while i < t.joins.len()
        invariant
            i <= t.joins@.len(),
            first == factor_sources(t.relation, strings_view(names@), false),
            found_view(sources@) == first + joins_sources(t.joins@.subrange(0, i as int), strings_view(names@)),
        decreases t.joins@.len() - i,
    {
        proof {
            assert(t.joins@.subrange(0, i + 1).drop_last() =~= t.joins@.subrange(0, i as int));
            assert(decreases_to!(t => t.joins));
        }
        let found = factor_sources_exec(&t.joins[i], names, true);
        append_sources(&mut sources, found);
        proof {
            assert(found_view(sources@) =~= first + joins_sources(t.joins@.subrange(0, i + 1), strings_view(names@)));
        }
        i = i + 1;
    }
    proof {
        assert(t.joins@.subrange(0, i as int) =~= t.joins@);
    }
    sources
}

/// The source tables of a table reference, as `factor_sources` states.
fn factor_sources_exec(f: &SqlTableFactor, names: &Vec<String>, is_join: bool) -> (r: Vec<(String, EdgeRelation)>)
    ensures
        found_view(r@) == factor_sources(*f, strings_view(names@), is_join),
    decreases f,
{
    match f {
        SqlTableFactor::Table { name, .. } => {
            let table = join_with_dots(name);
            if names_match_exec(names, table.as_str()) {
                Vec::new()
            } else {
                let relation = if is_join { EdgeRelation::JoinOn } else { EdgeRelation::SelectFrom };
                let mut v: Vec<(String, EdgeRelation)> = Vec::new();
                v.push((table, relation));
                proof {
                    assert(found_view(v@) =~= seq![(name_text(name@), relation)]);
                }
                v
            }
        },
        SqlTableFactor::Derived(q) => query_sources_exec(q, names),
        SqlTableFactor::NestedJoin(t) => twj_sources_exec(t, names),
        SqlTableFactor::Other => Vec::new(),
    }
}


/// The edge from `src` to `tgt` a SQL statement yields: both names lower-cased, no
/// line number.
pub open spec fn make_edge(src: Seq<char>, tgt: Seq<char>, relation: EdgeRelation, path: Seq<char>) -> EdgeView {
    EdgeView {
        source: lowercase(src),
        target: lowercase(tgt),
        relation,
        source_file: path,
        line_number: None,
    }
}

/// Under `CREATE TABLE ... AS`, a plain `FROM` read becomes `CreateTableAs`.
pub open spec fn ctas_relation(r: EdgeRelation) -> EdgeRelation {
    if r == EdgeRelation::SelectFrom {
        EdgeRelation::CreateTableAs
    } else {
        r
    }
}

/// The edges one statement yields: from each source table of the query of a
/// `CREATE TABLE ... AS`, a `CREATE VIEW` or an `INSERT INTO ... SELECT` to the
/// created or filled table. Other statements yield none.
pub open spec fn statement_edges(s: SqlStatement, path: Seq<char>) -> Seq<EdgeView> {
    match s {
        SqlStatement::CreateTable { name, query, .. } => match query {
            Some(q) => query_sources(*q).map_values(
                |p: (Seq<char>, EdgeRelation)| make_edge(p.0, name_text(name@), ctas_relation(p.1), path),
            ),
            None => Seq::empty(),
        },
        SqlStatement::CreateView { name, query } => query_sources(*query).map_values(
            |p: (Seq<char>, EdgeRelation)| make_edge(p.0, name_text(name@), p.1, path),
        ),
        SqlStatement::Insert { table, source } => match (table, source) {
            (Some(t), Some(q)) => query_sources(*q).map_values(
                |p: (Seq<char>, EdgeRelation)| make_edge(p.0, name_text(t@), EdgeRelation::InsertInto, path),
            ),
            _ => Seq::empty(),
        },
        SqlStatement::Other => Seq::empty(),
    }
}

/// The edges of a list of statements, in order.
pub open spec fn statements_edges(ss: Seq<SqlStatement>, path: Seq<char>) -> Seq<EdgeView>
    decreases ss.len(),
{
    if ss.len() == 0 {
        Seq::empty()
    } else {
        statements_edges(ss.drop_last(), path) + statement_edges(ss.last(), path)
    }
}

/// The edges a SQL file yields: none when it holds Jinja (`{{`), which the dbt
/// scanner reads, or when it does not parse; otherwise those of its statements.
pub open spec fn sql_file_edges(path: Seq<char>, content: Seq<char>) -> Seq<EdgeView> {
    if has_substring(content, "{{"@) {
        Seq::empty()
    } else {
        match parsed_sql(content) {
            Some(ss) => statements_edges(ss, path),
            None => Seq::empty(),
        }
    }
}

/// The abstract values of a list of edges.
pub open spec fn edges_view(v: Seq<LineageEdge>) -> Seq<EdgeView> {
    v.map_values(|e: LineageEdge| e@)
}

/// The edge a found source table yields toward `target`.
pub open spec fn source_edge(p: (Seq<char>, EdgeRelation), target: Seq<char>, ctas: bool, insert: bool, path: Seq<char>) -> EdgeView {
    make_edge(
        p.0,
        target,
        if insert { EdgeRelation::InsertInto } else if ctas { ctas_relation(p.1) } else { p.1 },
        path,
    )
}

fn push_source_edges(
    edges: &mut Vec<LineageEdge>,
    sources: &Vec<(String, EdgeRelation)>,
    target: &str,
    ctas: bool,
    insert: bool,
    path: &str,
)
    ensures
        edges_view(final(edges)@) == edges_view(old(edges)@) + found_view(sources@).map_values(
            |p: (Seq<char>, EdgeRelation)| source_edge(p, target@, ctas, insert, path@),
        ),
{
    let ghost start = edges_view(edges@);
    let mut i: usize = 0;
    while i < sources.len()
        invariant
            i <= sources@.len(),
            edges_view(edges@) == start + found_view(sources@).subrange(0, i as int).map_values(|p: (Seq<char>, EdgeRelation)| source_edge(p, target@, ctas, insert, path@)),
        decreases sources@.len() - i,
    {
        let (src, rel) = &sources[i];
        let relation = if insert {
            EdgeRelation::InsertInto
        } else if ctas && *rel == EdgeRelation::SelectFrom {
            EdgeRelation::CreateTableAs
        } else {
            *rel
        };
        let edge = LineageEdge {
            source: NodeId::from(src.as_str()),
            target: NodeId::from(target),
            relation,
            source_file: copy_str(path),
            line_number: None,
        };
        let ghost before = edges@;
        edges.push(edge);
        proof {
            assert(found_view(sources@)[i as int] == (src@, *rel));
            assert(edge@.source == lowercase(src@));
            assert(edge@.target == lowercase(target@));
            assert(edge@.source_file == path@);
            assert(edge@.relation == (if insert { EdgeRelation::InsertInto } else if ctas { ctas_relation(*rel) } else { *rel }));
            assert(edge@ == source_edge((src@, *rel), target@, ctas, insert, path@));
            assert(edges_view(edges@) =~= edges_view(before).push(edge@));
            assert(found_view(sources@).subrange(0, i + 1).map_values(|p: (Seq<char>, EdgeRelation)| source_edge(p, target@, ctas, insert, path@)) =~= found_view(sources@).subrange(0, i as int).map_values(|p: (Seq<char>, EdgeRelation)| source_edge(p, target@, ctas, insert, path@)).push(source_edge(found_view(sources@)[i as int], target@, ctas, insert, path@)));
            assert(edges_view(edges@) =~= start + found_view(sources@).subrange(0, i + 1).map_values(|p: (Seq<char>, EdgeRelation)| source_edge(p, target@, ctas, insert, path@)));
        }
        i = i + 1;
    }
    proof {
        assert(found_view(sources@).subrange(0, i as int) =~= found_view(sources@));
    }
}

/// The edges one statement yields, as `statement_edges` states.
fn statement_edges_exec(stmt: &SqlStatement, path: &str, edges: &mut Vec<LineageEdge>)
    ensures
        edges_view(final(edges)@) == edges_view(old(edges)@) + statement_edges(*stmt, path@),
{
    match stmt {
        SqlStatement::CreateTable { name, query, .. } => {
            match query {
                Some(q) => {
                    let target = join_with_dots(name);
                    let sources = top_query_sources(q);
                    push_source_edges(edges, &sources, target.as_str(), true, false, path);
                },
                None => {
                    proof {
                        assert(edges_view(edges@) =~= edges_view(edges@) + Seq::<EdgeView>::empty());
                    }
                },
            }
        },
        SqlStatement::CreateView { name, query } => {
            let target = join_with_dots(name);
            let sources = top_query_sources(query);
            push_source_edges(edges, &sources, target.as_str(), false, false, path);
        },
        SqlStatement::Insert { table, source } => {
            match (table, source) {
                (Some(t), Some(q)) => {
                    let target = join_with_dots(t);
                    let sources = top_query_sources(q);
                    push_source_edges(edges, &sources, target.as_str(), false, true, path);
                },
                _ => {
                    proof {
                        assert(edges_view(edges@) =~= edges_view(edges@) + Seq::<EdgeView>::empty());
                    }
                },
            }
        },
        SqlStatement::Other => {
            proof {
                assert(edges_view(edges@) =~= edges_view(edges@) + Seq::<EdgeView>::empty());
            }
        },
    }
}

/// The edges of a list of statements, as `statements_edges` states.
pub fn edges_from_statements(statements: &Vec<SqlStatement>, path: &str) -> (r: Vec<LineageEdge>)
    ensures
        edges_view(r@) == statements_edges(statements@, path@),
{
    let mut edges: Vec<LineageEdge> = Vec::new();
    let mut i: usize = 0;
    proof {
        assert(edges_view(edges@) =~= statements_edges(statements@.subrange(0, 0), path@));
    }
    while i < statements.len()
        invariant
            i <= statements@.len(),
            edges_view(edges@) == statements_edges(statements@.subrange(0, i as int), path@),
        decreases statements@.len() - i,
    {
        proof {
            assert(statements@.subrange(0, i + 1).drop_last() =~= statements@.subrange(0, i as int));
        }
        statement_edges_exec(&statements[i], path, &mut edges);
        i = i + 1;
    }
    proof {
        assert(statements@.subrange(0, i as int) =~= statements@);
    }
    edges
}

/// Extracts table-level lineage from SQL files with the SQL parser.
pub struct SqlScanner;

impl crate::scanner::Scanner for SqlScanner {
    open spec fn spec_scan(&self, path: Seq<char>, content: Seq<char>) -> Seq<EdgeView> {
        sql_file_edges(path, content)
    }

    open spec fn spec_extensions(&self) -> Seq<Seq<char>> {
        seq!["sql"@]
    }

    fn extensions(&self) -> (r: &'static [&'static str]) {
        &["sql"]
    }

    /// The edges of a SQL file: none when it holds Jinja (`{{`) or does not parse;
    /// otherwise one per source table of each `CREATE TABLE ... AS`, `CREATE VIEW`
    /// and `INSERT INTO ... SELECT` statement. It never fails.
    fn scan_file(&self, path: &str, content: &str) -> (r: Result<Vec<LineageEdge>, crate::error::LineageError>)
        ensures
            r is Ok,
    {
        let jinja = contains_str(content, "{{");
        if jinja {
            return Ok(Vec::new());
        }
        match parse_sql(content) {
            Some(statements) => Ok(edges_from_statements(&statements, path)),
            None => Ok(Vec::new()),
        }
    }
}


// ===== Column names =====

/// The column name an expression without alias gives: an identifier's name, or the
/// last part of a compound identifier.
pub open spec fn expr_column_name(e: SqlExpr) -> Option<Seq<char>> {
    match e.kind {
        SqlExprKind::Identifier(v) => Some(v@),
        SqlExprKind::CompoundIdentifier(ps) => if ps@.len() > 0 {
            Some(ps@.last()@)
        } else {
            None
        },
        _ => None,
    }
}

/// The output column names of a select list, lower-cased: aliases, and the names of
/// plain column references; other items are skipped.
pub open spec fn select_columns(items: Seq<SqlSelectItem>) -> Seq<Seq<char>>
    decreases items.len(),
{
    if items.len() == 0 {
        Seq::empty()
    } else {
        let rest = select_columns(items.drop_last());
        match items.last() {
            SqlSelectItem::Unnamed(e) => match expr_column_name(e) {
                Some(n) => rest.push(lowercase(n)),
                None => rest,
            },
            SqlSelectItem::WithAlias(_, a) => rest.push(lowercase(a@)),
            _ => rest,
        }
    }
}

/// The output column names of a query body: those of a select, of a parenthesised
/// query, or of the left operand of a set operation.
pub open spec fn set_expr_columns(e: SqlSetExpr) -> Seq<Seq<char>>
    decreases e,
{
    match e {
        SqlSetExpr::Select(s) => select_columns(s.projection@),
        SqlSetExpr::Query(q) => set_expr_columns(*q.body),
        SqlSetExpr::SetOperation(l, _) => set_expr_columns(*l),
        SqlSetExpr::Other => Seq::empty(),
    }
}

/// The column map after a statement: a `CREATE TABLE` or `CREATE VIEW` sets the
/// columns of the (lower-cased) target to its query's output columns when there are
/// any; a `CREATE TABLE` with column definitions then sets them to those names.
pub open spec fn statement_columns(m: Map<Seq<char>, Seq<Seq<char>>>, s: SqlStatement) -> Map<Seq<char>, Seq<Seq<char>>> {
    match s {
        SqlStatement::CreateTable { name, columns, query } => {
            let t = lowercase(name_text(name@));
            let m1 = match query {
                Some(q) => {
                    let c = set_expr_columns(*q.body);
                    if c.len() > 0 { m.insert(t, c) } else { m }
                },
                None => m,
            };
            if columns@.len() > 0 {
                m1.insert(t, strings_view(columns@).map_values(|c: Seq<char>| lowercase(c)))
            } else {
                m1
            }
        },
        SqlStatement::CreateView { name, query } => {
            let c = set_expr_columns(*query.body);
            if c.len() > 0 { m.insert(lowercase(name_text(name@)), c) } else { m }
        },
        _ => m,
    }
}

/// The column map of a list of statements, read in order.
pub open spec fn statements_columns(ss: Seq<SqlStatement>) -> Map<Seq<char>, Seq<Seq<char>>>
    decreases ss.len(),
{
    if ss.len() == 0 {
        Map::empty()
    } else {
        statement_columns(statements_columns(ss.drop_last()), ss.last())
    }
}

/// The column map of a SQL file: empty when it holds Jinja or does not parse.
pub open spec fn sql_file_columns(content: Seq<char>) -> Map<Seq<char>, Seq<Seq<char>>> {
    if has_substring(content, "{{"@) {
        Map::empty()
    } else {
        match parsed_sql(content) {
            Some(ss) => statements_columns(ss),
            None => Map::empty(),
        }
    }
}

pub(crate) fn expr_column_name_exec(e: &SqlExpr) -> (r: Option<&String>)
    ensures
        match r {
            Some(n) => expr_column_name(*e) == Some(n@),
            None => expr_column_name(*e) is None,
        },
{
    match &e.kind {
        SqlExprKind::Identifier(v) => Some(v),
        SqlExprKind::CompoundIdentifier(ps) => {
            if ps.len() > 0 {
                Some(&ps[ps.len() - 1])
            } else {
                None
            }
        },
        _ => None,
    }
}

fn select_columns_exec(items: &Vec<SqlSelectItem>) -> (r: Vec<String>)
    ensures
        strings_view(r@) == select_columns(items@),
{
    let mut cols: Vec<String> = Vec::new();
    let mut i: usize = 0;
    proof {
        assert(strings_view(cols@) =~= select_columns(items@.subrange(0, 0)));
    }
    while i < items.len()
        invariant
            i <= items@.len(),
            strings_view(cols@) == select_columns(items@.subrange(0, i as int)),
        decreases items@.len() - i,
    {
        proof {
            assert(items@.subrange(0, i + 1).drop_last() =~= items@.subrange(0, i as int));
        }
        let ghost before = cols@;
        match &items[i] {
            SqlSelectItem::Unnamed(e) => {
                match expr_column_name_exec(e) {
                    Some(n) => {
                        let c = to_lowercase(n.as_str());
                        cols.push(c);
                        proof {
                            assert(strings_view(cols@) =~= strings_view(before).push(c@));
                        }
                    },
                    None => {},
                }
            },
            SqlSelectItem::WithAlias(_, a) => {
                let c = to_lowercase(a.as_str());
                cols.push(c);
                proof {
                    assert(strings_view(cols@) =~= strings_view(before).push(c@));
                }
            },
            _ => {},
        }
        i = i + 1;
    }
    proof {
        assert(items@.subrange(0, i as int) =~= items@);
    }
    cols
}

fn set_expr_columns_exec(e: &SqlSetExpr) -> (r: Vec<String>)
    ensures
        strings_view(r@) == set_expr_columns(*e),
    decreases e,
{
    match e {
        SqlSetExpr::Select(s) => select_columns_exec(&s.projection),
        SqlSetExpr::Query(q) => set_expr_columns_exec(&q.body),
        SqlSetExpr::SetOperation(l, _) => set_expr_columns_exec(l),
        SqlSetExpr::Other => Vec::new(),
    }
}

fn lowercase_all(v: &Vec<String>) -> (r: Vec<String>)
    ensures
        strings_view(r@) == strings_view(v@).map_values(|c: Seq<char>| lowercase(c)),
{
    let mut r: Vec<String> = Vec::new();
    let mut i: usize = 0;
    while i < v.len()
        invariant
            i <= v@.len(),
            r@.len() == i,
            forall|j: int| 0 <= j < i ==> r@[j]@ == lowercase(v@[j]@),
        decreases v@.len() - i,
    {
        r.push(to_lowercase(v[i].as_str()));
        i = i + 1;
    }
    proof {
        assert(strings_view(r@) =~= strings_view(v@).map_values(|c: Seq<char>| lowercase(c)));
    }
    r
}

/// Updates a column map with one statement, as `statement_columns` states.
pub fn statement_columns_exec(map: &mut ColumnMap, stmt: &SqlStatement)
    requires
        old(map).wf(),
    ensures
        final(map).wf(),
        final(map)@ == statement_columns(old(map)@, *stmt),
{
    match stmt {
        SqlStatement::CreateTable { name, columns, query } => {
            let target = to_lowercase(join_with_dots(name).as_str());
            match query {
                Some(q) => {
                    let cols = set_expr_columns_exec(&q.body);
                    if cols.len() > 0 {
                        map.insert(copy_str(target.as_str()), cols);
                    }
                },
                None => {},
            }
            if columns.len() > 0 {
                map.insert(target, lowercase_all(columns));
            }
        },
        SqlStatement::CreateView { name, query } => {
            let cols = set_expr_columns_exec(&query.body);
            if cols.len() > 0 {
                let target = to_lowercase(join_with_dots(name).as_str());
                map.insert(target, cols);
            }
        },
        _ => {},
    }
}

/// The column map of a list of statements, as `statements_columns` states.
pub fn columns_from_statements(statements: &Vec<SqlStatement>) -> (r: ColumnMap)
    ensures
        r.wf(),
        r@ == statements_columns(statements@),
{
    let mut map = ColumnMap::new();
    let mut i: usize = 0;
    proof {
        assert(statements@.subrange(0, 0) =~= Seq::<SqlStatement>::empty());
    }
    while i < statements.len()
        invariant
            i <= statements@.len(),
            map.wf(),
            map@ == statements_columns(statements@.subrange(0, i as int)),
        decreases statements@.len() - i,
    {
        proof {
            assert(statements@.subrange(0, i + 1).drop_last() =~= statements@.subrange(0, i as int));
        }
        statement_columns_exec(&mut map, &statements[i]);
        i = i + 1;
    }
    proof {
        assert(statements@.subrange(0, i as int) =~= statements@);
    }
    map
}

/// The output columns of the tables and views a SQL file creates (best-effort):
/// empty when the file holds Jinja (`{{`) or does not parse.
pub fn extract_columns_from_sql(content: &str) -> (r: ColumnMap)
    ensures
        r.wf(),
        r@ == sql_file_columns(content@),
{
    if contains_str(content, "{{") {
        return ColumnMap::new();
    }
    match parse_sql(content) {
        Some(statements) => columns_from_statements(&statements),
        None => ColumnMap::new(),
    }
}


/// No source of `srcs` matches one of `names`, ignoring ASCII case.
pub open spec fn avoids(srcs: Sources, names: Seq<Seq<char>>) -> bool {
    forall|k: int| 0 <= k < srcs.len() ==> !names_match(names, #[trigger] srcs[k].0)
}

/// Every name that matches one of `inner` matches one of `outer` too.
pub open spec fn covers(outer: Seq<Seq<char>>, inner: Seq<Seq<char>>) -> bool {
    forall|t: Seq<char>| names_match(inner, t) ==> #[trigger] names_match(outer, t)
}

proof fn lemma_avoids_concat(a: Sources, b: Sources, names: Seq<Seq<char>>)
    requires
        avoids(a, names),
        avoids(b, names),
    ensures
        avoids(a + b, names),
{
    assert forall|k: int| 0 <= k < (a + b).len() implies !names_match(names, #[trigger] (a + b)[k].0) by {
        if k < a.len() {
            assert((a + b)[k] == a[k]);
        } else {
            assert((a + b)[k] == b[k - a.len()]);
        }
    }
}

proof fn lemma_covers_extend(names: Seq<Seq<char>>, more: Seq<Seq<char>>, inner: Seq<Seq<char>>)
    requires
        covers(names, inner),
    ensures
        covers(names + more, inner),
{
    assert forall|t: Seq<char>| names_match(inner, t) implies #[trigger] names_match(names + more, t) by {
        assert(names_match(names, t));
        let i = choose|i: int| 0 <= i < names.len() && ascii_case_eq(names[i], t);
        assert((names + more)[i] == names[i]);
    }
}

proof fn lemma_query_avoids(q: SqlQuery, outer: Seq<Seq<char>>, inner: Seq<Seq<char>>)
    requires
        covers(outer, inner),
    ensures
        avoids(query_sources_in(q, outer), inner),
    decreases q,
{
    assert(decreases_to!(q => q.ctes));
    lemma_ctes_avoid(q.ctes@, outer, inner);
    lemma_covers_extend(outer, cte_names(q.ctes@), inner);
    lemma_set_expr_avoids(*q.body, outer + cte_names(q.ctes@), inner);
    lemma_avoids_concat(
        cte_body_sources(q.ctes@, outer),
        set_expr_sources(*q.body, outer + cte_names(q.ctes@)),
        inner,
    );
}

proof fn lemma_ctes_avoid(cs: Seq<SqlCte>, outer: Seq<Seq<char>>, inner: Seq<Seq<char>>)
    requires
        covers(outer, inner),
    ensures
        avoids(cte_body_sources(cs, outer), inner),
    decreases cs,
{
    if cs.len() > 0 {
        lemma_ctes_avoid(cs.drop_last(), outer, inner);
        lemma_covers_extend(outer, cte_names(cs), inner);
        lemma_query_avoids(*cs[cs.len() - 1].query, outer + cte_names(cs), inner);
        lemma_avoids_concat(
            cte_body_sources(cs.drop_last(), outer),
            query_sources_in(*cs[cs.len() - 1].query, outer + cte_names(cs)),
            inner,
        );
    }
}

proof fn lemma_set_expr_avoids(e: SqlSetExpr, names: Seq<Seq<char>>, inner: Seq<Seq<char>>)
    requires
        covers(names, inner),
    ensures
        avoids(set_expr_sources(e, names), inner),
    decreases e,
{
    match e {
        SqlSetExpr::Select(sel) => {
            lemma_from_avoids(sel.from@, names, inner);
        },
        SqlSetExpr::Query(q) => {
            lemma_query_avoids(*q, names, inner);
        },
        SqlSetExpr::SetOperation(l, r) => {
            lemma_set_expr_avoids(*l, names, inner);
            lemma_set_expr_avoids(*r, names, inner);
            lemma_avoids_concat(set_expr_sources(*l, names), set_expr_sources(*r, names), inner);
        },
        SqlSetExpr::Other => {},
    }
}

proof fn lemma_from_avoids(ts: Seq<SqlTableWithJoins>, names: Seq<Seq<char>>, inner: Seq<Seq<char>>)
    requires
        covers(names, inner),
    ensures
        avoids(from_sources(ts, names), inner),
    decreases ts,
{
    if ts.len() > 0 {
        lemma_from_avoids(ts.drop_last(), names, inner);
        lemma_twj_avoids(ts.last(), names, inner);
        lemma_avoids_concat(from_sources(ts.drop_last(), names), twj_sources(ts.last(), names), inner);
    }
}

proof fn lemma_twj_avoids(t: SqlTableWithJoins, names: Seq<Seq<char>>, inner: Seq<Seq<char>>)
    requires
        covers(names, inner),
    ensures
        avoids(twj_sources(t, names), inner),
    decreases t,
{
    assert(decreases_to!(t => t.joins));
    lemma_factor_avoids(t.relation, names, inner, false);
    lemma_joins_avoid(t.joins@, names, inner);
    lemma_avoids_concat(factor_sources(t.relation, names, false), joins_sources(t.joins@, names), inner);
}

proof fn lemma_joins_avoid(js: Seq<SqlTableFactor>, names: Seq<Seq<char>>, inner: Seq<Seq<char>>)
    requires
        covers(names, inner),
    ensures
        avoids(joins_sources(js, names), inner),
    decreases js,
{
    if js.len() > 0 {
        lemma_joins_avoid(js.drop_last(), names, inner);
        lemma_factor_avoids(js.last(), names, inner, true);
        lemma_avoids_concat(joins_sources(js.drop_last(), names), factor_sources(js.last(), names, true), inner);
    }
}

proof fn lemma_factor_avoids(f: SqlTableFactor, names: Seq<Seq<char>>, inner: Seq<Seq<char>>, is_join: bool)
    requires
        covers(names, inner),
    ensures
        avoids(factor_sources(f, names, is_join), inner),
    decreases f,
{
    match f {
        SqlTableFactor::Table { name, .. } => {
            assert(names_match(inner, name_text(name@)) ==> names_match(names, name_text(name@)));
        },
        SqlTableFactor::Derived(q) => {
            lemma_query_avoids(*q, names, inner);
        },
        SqlTableFactor::NestedJoin(t) => {
            lemma_twj_avoids(*t, names, inner);
        },
        SqlTableFactor::Other => {},
    }
}

/// The names of common table expressions are never reported as source tables
/// where they are in scope: reading a query with the CTE names `outer` in scope
/// (those of an enclosing `WITH`, as for each CTE body the CTEs up to it), no
/// source found matches one of them, ignoring ASCII case. Nor does any source of a
/// query's body match one of that query's own CTE names.
pub proof fn law_cte_names_not_sources(q: SqlQuery, outer: Seq<Seq<char>>)
    ensures
        avoids(query_sources_in(q, outer), outer),
        avoids(set_expr_sources(*q.body, outer + cte_names(q.ctes@)), cte_names(q.ctes@)),
{
    assert(covers(outer, outer));
    lemma_query_avoids(q, outer, outer);
    assert forall|t: Seq<char>| names_match(cte_names(q.ctes@), t) implies #[trigger] names_match(
        outer + cte_names(q.ctes@),
        t,
    ) by {
        let i = choose|i: int| 0 <= i < cte_names(q.ctes@).len() && ascii_case_eq(cte_names(q.ctes@)[i], t);
        assert((outer + cte_names(q.ctes@))[outer.len() + i] == cte_names(q.ctes@)[i]);
    }
    lemma_set_expr_avoids(*q.body, outer + cte_names(q.ctes@), cte_names(q.ctes@));
}


proof fn lemma_joins_contain(js: Seq<SqlTableFactor>, names: Seq<Seq<char>>, j: int, x: (Seq<char>, EdgeRelation))
    requires
        0 <= j < js.len(),
        factor_sources(js[j], names, true).contains(x),
    ensures
        joins_sources(js, names).contains(x),
    decreases js.len(),
{
    if j < js.len() - 1 {
        assert(js.drop_last()[j] == js[j]);
        lemma_joins_contain(js.drop_last(), names, j, x);
    }
    lemma_concat_contains(joins_sources(js.drop_last(), names), factor_sources(js.last(), names, true), x);
}

proof fn lemma_from_contain(ts: Seq<SqlTableWithJoins>, names: Seq<Seq<char>>, i: int, x: (Seq<char>, EdgeRelation))
    requires
        0 <= i < ts.len(),
        twj_sources(ts[i], names).contains(x),
    ensures
        from_sources(ts, names).contains(x),
    decreases ts.len(),
{
    if i < ts.len() - 1 {
        assert(ts.drop_last()[i] == ts[i]);
        lemma_from_contain(ts.drop_last(), names, i, x);
    }
    lemma_concat_contains(from_sources(ts.drop_last(), names), twj_sources(ts.last(), names), x);
}

/// Every table joined in a `FROM` item is a source: for join `j` of `FROM` item `i`
/// of a select, when it names a table that is not a CTE in scope, that table is
/// among the select's sources, read by `JoinOn`; so is each item's own table,
/// read by `SelectFrom`.
pub proof fn law_joined_tables_are_sources(ts: Seq<SqlTableWithJoins>, names: Seq<Seq<char>>, i: int, j: int)
    requires
        0 <= i < ts.len(),
    ensures
        0 <= j < ts[i].joins@.len() ==> (ts[i].joins@[j] matches SqlTableFactor::Table { name, .. } ==> (
            !names_match(names, name_text(name@)) ==> from_sources(ts, names).contains(
                (name_text(name@), EdgeRelation::JoinOn),
            ))),
        ts[i].relation matches SqlTableFactor::Table { name, .. } ==> (!names_match(names, name_text(name@))
            ==> from_sources(ts, names).contains((name_text(name@), EdgeRelation::SelectFrom))),
{
    let t = ts[i];
    if 0 <= j < t.joins@.len() {
        match t.joins@[j] {
            SqlTableFactor::Table { name, .. } => {
                if !names_match(names, name_text(name@)) {
                    let x = (name_text(name@), EdgeRelation::JoinOn);
                    assert(factor_sources(t.joins@[j], names, true)[0] == x);
                    lemma_joins_contain(t.joins@, names, j, x);
                    lemma_concat_contains(factor_sources(t.relation, names, false), joins_sources(t.joins@, names), x);
                    lemma_from_contain(ts, names, i, x);
                }
            },
            _ => {},
        }
    }
    match t.relation {
        SqlTableFactor::Table { name, .. } => {
            if !names_match(names, name_text(name@)) {
                let x = (name_text(name@), EdgeRelation::SelectFrom);
                assert(factor_sources(t.relation, names, false)[0] == x);
                lemma_concat_contains(factor_sources(t.relation, names, false), joins_sources(t.joins@, names), x);
                lemma_from_contain(ts, names, i, x);
            }
        },
        _ => {},
    }
}

/// A `CREATE TABLE ... AS SELECT` yields an edge into the created table from every
/// table joined in the `FROM` items of its select that is not one of the query's
/// CTEs, with the relation `JoinOn`.
pub proof fn law_create_table_join_edges(
    name: Vec<String>,
    columns: Vec<String>,
    ctes: Vec<SqlCte>,
    sel: SqlSelect,
    path: Seq<char>,
    i: int,
    j: int,
    joined: Vec<String>,
    alias: Option<String>,
)
    requires
        0 <= i < sel.from@.len(),
        0 <= j < sel.from@[i].joins@.len(),
        sel.from@[i].joins@[j] == (SqlTableFactor::Table { name: joined, alias }),
        !names_match(cte_names(ctes@), name_text(joined@)),
    ensures
        statement_edges(
            SqlStatement::CreateTable {
                name,
                columns,
                query: Some(Box::new(SqlQuery { ctes, body: Box::new(SqlSetExpr::Select(Box::new(sel))) })),
            },
            path,
        ).contains(make_edge(name_text(joined@), name_text(name@), EdgeRelation::JoinOn, path)),
{
    let q = SqlQuery { ctes, body: Box::new(SqlSetExpr::Select(Box::new(sel))) };
    let names = Seq::<Seq<char>>::empty() + cte_names(ctes@);
    assert(names =~= cte_names(ctes@));
    let x = (name_text(joined@), EdgeRelation::JoinOn);
    law_joined_tables_are_sources(sel.from@, names, i, j);
    assert(set_expr_sources(*q.body, names) == from_sources(sel.from@, names));
    lemma_concat_contains(cte_body_sources(q.ctes@, Seq::empty()), set_expr_sources(*q.body, names), x);
    let srcs = query_sources(q);
    assert(srcs.contains(x));
    let k = choose|k: int| 0 <= k < srcs.len() && srcs[k] == x;
    let f = |p: (Seq<char>, EdgeRelation)| make_edge(p.0, name_text(name@), ctas_relation(p.1), path);
    let stmt = SqlStatement::CreateTable { name, columns, query: Some(Box::new(q)) };
    assert(statement_edges(stmt, path) == srcs.map_values(f));
    assert(srcs.map_values(f)[k] == make_edge(name_text(joined@), name_text(name@), EdgeRelation::JoinOn, path));
}

} // verus!
