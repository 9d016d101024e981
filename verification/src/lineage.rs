use vstd::prelude::*;
use vstd::string::StringExecFns;
use crate::node::{lineages_view, sources_view, strings_view, ColumnLineage, LineageView, SourceColumn, SourceView, TransformKind, TransformView};
use crate::sql::{expr_column_name, name_text};
use crate::sql_ast::{SqlCte, SqlExpr, SqlExprKind, SqlFunctionArg, SqlQuery, SqlSelect, SqlSelectItem, SqlSetExpr, SqlStatement, SqlTableFactor, SqlTableWithJoins};
use crate::sql_parse::{parse_sql, parsed_sql};
use crate::text::{contains_str, contains_string, copy_str, has_substring, join_with_dots, lowercase, str_eq, to_lowercase, to_uppercase, uppercase};

verus! {

// ===== Alias maps =====

/// Alias (lower case) to table name (lower case).
pub type AliasView = Map<Seq<char>, Seq<char>>;

/// The map a list of entries makes, a later entry replacing an earlier one with the
/// same key.
pub open spec fn pairs_map(ps: Seq<(Seq<char>, Seq<char>)>) -> AliasView
    decreases ps.len(),
{
    if ps.len() == 0 {
        Map::empty()
    } else {
        pairs_map(ps.drop_last()).insert(ps.last().0, ps.last().1)
    }
}

/// The entries a table reference adds to an alias map: its alias, when it has one,
/// then the table's own name, both pointing to the table's name (all lower case).
pub open spec fn factor_alias_pairs(f: SqlTableFactor) -> Seq<(Seq<char>, Seq<char>)> {
    match f {
        SqlTableFactor::Table { name, alias } => {
            let t = lowercase(name_text(name@));
            match alias {
                Some(a) => seq![(lowercase(a@), t), (t, t)],
                None => seq![(t, t)],
            }
        },
        _ => Seq::empty(),
    }
}

/// The alias entries of a list of joined tables.
pub open spec fn joins_alias_pairs(js: Seq<SqlTableFactor>) -> Seq<(Seq<char>, Seq<char>)>
    decreases js.len(),
{
    if js.len() == 0 {
        Seq::empty()
    } else {
        joins_alias_pairs(js.drop_last()) + factor_alias_pairs(js.last())
    }
}

/// The alias entries of a list of `FROM` items: each item's table, then its joins.
pub open spec fn from_alias_pairs(ts: Seq<SqlTableWithJoins>) -> Seq<(Seq<char>, Seq<char>)>
    decreases ts.len(),
{
    if ts.len() == 0 {
        Seq::empty()
    } else {
        from_alias_pairs(ts.drop_last()) + factor_alias_pairs(ts.last().relation) + joins_alias_pairs(
            ts.last().joins@,
        )
    }
}

/// The alias map of a query: built from the `FROM` items of its body when that is a
/// plain select; empty otherwise.
pub open spec fn query_alias_map(q: SqlQuery) -> AliasView {
    match *q.body {
        SqlSetExpr::Select(s) => pairs_map(from_alias_pairs(s.from@)),
        _ => Map::empty(),
    }
}

/// What a table alias stands for: its entry in the map, or the alias itself.
pub open spec fn resolve(am: AliasView, k: Seq<char>) -> Seq<char> {
    if am.contains_key(k) {
        am[k]
    } else {
        k
    }
}

// ===== Common table expressions in scope =====

/// The column lineage of the common table expressions in scope, in the order they
/// came into scope: each one's (lower-case) name and the lineage of its query. A
/// later entry shadows an earlier one of the same name.
pub type LineageEnv = Seq<(Seq<char>, Seq<LineageView>)>;

/// The lineage of the last common table expression in scope named `t`.
pub open spec fn env_lookup(env: LineageEnv, t: Seq<char>) -> Option<Seq<LineageView>>
    decreases env.len(),
{
    if env.len() == 0 {
        None
    } else if env.last().0 == t {
        Some(env.last().1)
    } else {
        env_lookup(env.drop_last(), t)
    }
}

/// The first entry of a lineage that writes column `c`.
pub open spec fn column_entry(ls: Seq<LineageView>, c: Seq<char>) -> Option<LineageView>
    decreases ls.len(),
{
    if ls.len() == 0 {
        None
    } else if ls[0].target_column == c {
        Some(ls[0])
    } else {
        column_entry(ls.drop_first(), c)
    }
}

/// What column `c` of table `t` (a table name, aliases already resolved) is built
/// from: when `t` names a common table expression in scope that writes a column
/// `c`, that column's upstream columns and transform, so that a read through a CTE
/// reaches the tables the CTE reads; otherwise column `c` of `t`, read directly.
pub open spec fn table_column(env: LineageEnv, t: Seq<char>, c: Seq<char>) -> (Seq<SourceView>, TransformView) {
    let direct = (seq![SourceView { table: Some(t), column: c }], TransformView::Direct);
    match env_lookup(env, t) {
        Some(ls) => match column_entry(ls, c) {
            Some(l) => (l.source_columns, l.transform),
            None => direct,
        },
        None => direct,
    }
}

/// The table an unqualified column of a select is read from: its only `FROM` item,
/// when that is a named table with nothing joined to it (lower case).
pub open spec fn default_table(s: SqlSelect) -> Option<Seq<char>> {
    if s.from@.len() == 1 && s.from@[0].joins@.len() == 0 {
        match s.from@[0].relation {
            SqlTableFactor::Table { name, .. } => Some(lowercase(name_text(name@))),
            _ => None,
        }
    } else {
        None
    }
}

/// Merging two lists of entries merges their maps, the second winning.
pub proof fn lemma_pairs_map_concat(a: Seq<(Seq<char>, Seq<char>)>, b: Seq<(Seq<char>, Seq<char>)>)
    ensures
        pairs_map(a + b) == pairs_map(a).union_prefer_right(pairs_map(b)),
    decreases b.len(),
{
    if b.len() == 0 {
        assert(a + b =~= a);
        assert(pairs_map(a).union_prefer_right(Map::empty()) =~= pairs_map(a));
    } else {
        assert((a + b).drop_last() =~= a + b.drop_last());
        lemma_pairs_map_concat(a, b.drop_last());
        assert(pairs_map(a + b) =~= pairs_map(a).union_prefer_right(pairs_map(b)));
    }
}

/// A table alias map.
#[derive(Debug)]
pub struct AliasMap {
    pairs: Vec<(String, String)>,
}

/// The character sequences of a list of entries.
pub open spec fn pairs_view(v: Seq<(String, String)>) -> Seq<(Seq<char>, Seq<char>)> {
    v.map_values(|p: (String, String)| (p.0@, p.1@))
}

impl AliasMap {
    /// The map.
    pub closed spec fn view(&self) -> AliasView {
        pairs_map(pairs_view(self.pairs@))
    }

    /// What `k` stands for: the table it is an alias of, or `k` itself.
    pub fn resolve(&self, k: &str) -> (r: String)
        ensures
            r@ == resolve(self@, k@),
    {
        let ghost pv = pairs_view(self.pairs@);
        let mut found: Option<usize> = None;
        let mut i: usize = 0;
        proof {
            assert(pv.subrange(0, 0) =~= Seq::<(Seq<char>, Seq<char>)>::empty());
        }
        while i < self.pairs.len()
            invariant
                pv == pairs_view(self.pairs@),
                i <= self.pairs@.len(),
                match found {
                    Some(j) => j < i && pairs_map(pv.subrange(0, i as int)).contains_key(k@)
                        && pairs_map(pv.subrange(0, i as int))[k@] == self.pairs@[j as int].1@,
                    None => !pairs_map(pv.subrange(0, i as int)).contains_key(k@),
                },
            decreases self.pairs@.len() - i,
        {
            proof {
                assert(pv.subrange(0, i + 1).drop_last() =~= pv.subrange(0, i as int));
            }
            if str_eq(self.pairs[i].0.as_str(), k) {
                found = Some(i);
            }
            i = i + 1;
        }
        proof {
            assert(pv.subrange(0, i as int) =~= pv);
        }
        match found {
            Some(j) => self.pairs[j].1.clone(),
            None => copy_str(k),
        }
    }

    /// The entries of `self`, then those of `other`: the merged map, `other` winning.
    pub fn merged(&self, other: &AliasMap) -> (r: AliasMap)
        ensures
            r@ == self@.union_prefer_right(other@),
    {
        let mut pairs: Vec<(String, String)> = Vec::new();
        let mut i: usize = 0;
        while i < self.pairs.len()
            invariant
                i <= self.pairs@.len(),
                pairs_view(pairs@) == pairs_view(self.pairs@).subrange(0, i as int),
            decreases self.pairs@.len() - i,
        {
            let ghost before = pairs@;
            let k = self.pairs[i].0.clone();
            let v = self.pairs[i].1.clone();
            pairs.push((k, v));
            proof {
                assert(pairs_view(pairs@) =~= pairs_view(before).push((k@, v@)));
                assert(pairs_view(self.pairs@)[i as int] == (k@, v@));
                assert(pairs_view(pairs@) =~= pairs_view(self.pairs@).subrange(0, i + 1));
            }
            i = i + 1;
        }
        let mut j: usize = 0;
        while j < other.pairs.len()
            invariant
                j <= other.pairs@.len(),
                pairs_view(pairs@) == pairs_view(self.pairs@) + pairs_view(other.pairs@).subrange(0, j as int),
            decreases other.pairs@.len() - j,
        {
            let ghost before = pairs@;
            let k = other.pairs[j].0.clone();
            let v = other.pairs[j].1.clone();
            pairs.push((k, v));
            proof {
                assert(pairs_view(pairs@) =~= pairs_view(before).push((k@, v@)));
                assert(pairs_view(other.pairs@)[j as int] == (k@, v@));
                assert(pairs_view(pairs@) =~= pairs_view(self.pairs@) + pairs_view(other.pairs@).subrange(0, j + 1));
            }
            j = j + 1;
        }
        proof {
            assert(pairs_view(pairs@) =~= pairs_view(self.pairs@) + pairs_view(other.pairs@));
            lemma_pairs_map_concat(pairs_view(self.pairs@), pairs_view(other.pairs@));
        }
        AliasMap { pairs }
    }
}

fn add_factor_aliases(map: &mut AliasMap, f: &SqlTableFactor)
    ensures
        final(map)@ == pairs_map(pairs_view(old(map).pairs@) + factor_alias_pairs(*f)),
        pairs_view(final(map).pairs@) == pairs_view(old(map).pairs@) + factor_alias_pairs(*f),
{
    let ghost before = pairs_view(map.pairs@);
    match f {
        SqlTableFactor::Table { name, alias } => {
            let t = to_lowercase(join_with_dots(name).as_str());
            match alias {
                Some(a) => {
                    let ghost b0 = map.pairs@;
                    map.pairs.push((to_lowercase(a.as_str()), copy_str(t.as_str())));
                    let ghost b1 = map.pairs@;
                    map.pairs.push((copy_str(t.as_str()), t));
                    proof {
                        assert(pairs_view(map.pairs@) =~= before + factor_alias_pairs(*f));
                    }
                },
                None => {
                    map.pairs.push((copy_str(t.as_str()), t));
                    proof {
                        assert(pairs_view(map.pairs@) =~= before + factor_alias_pairs(*f));
                    }
                },
            }
        },
        _ => {
            proof {
                assert(pairs_view(map.pairs@) =~= before + factor_alias_pairs(*f));
            }
        },
    }
}

/// The alias map of a query, as `query_alias_map` states.
fn build_alias_map(q: &SqlQuery) -> (r: AliasMap)
    ensures
        r@ == query_alias_map(*q),
{
    let mut map = AliasMap { pairs: Vec::new() };
    proof {
        assert(pairs_view(map.pairs@) =~= Seq::<(Seq<char>, Seq<char>)>::empty());
    }
    match &*q.body {
        SqlSetExpr::Select(s) => {
            let mut i: usize = 0;
            proof {
                assert(s.from@.subrange(0, 0) =~= Seq::<SqlTableWithJoins>::empty());
            }
            while i < s.from.len()
                invariant
                    i <= s.from@.len(),
                    pairs_view(map.pairs@) == from_alias_pairs(s.from@.subrange(0, i as int)),
                decreases s.from@.len() - i,
            {
                let t = &s.from[i];
                proof {
                    assert(s.from@.subrange(0, i + 1).drop_last() =~= s.from@.subrange(0, i as int));
                }
                let ghost base = pairs_view(map.pairs@);
                add_factor_aliases(&mut map, &t.relation);
                let mut k: usize = 0;
                proof {
                    assert(t.joins@.subrange(0, 0) =~= Seq::<SqlTableFactor>::empty());
                    assert(pairs_view(map.pairs@) =~= base + factor_alias_pairs(t.relation) + joins_alias_pairs(t.joins@.subrange(0, 0)));
                }
                while k < t.joins.len()
                    invariant
                        k <= t.joins@.len(),
                        pairs_view(map.pairs@) == base + factor_alias_pairs(t.relation) + joins_alias_pairs(t.joins@.subrange(0, k as int)),
                    decreases t.joins@.len() - k,
                {
                    proof {
                        assert(t.joins@.subrange(0, k + 1).drop_last() =~= t.joins@.subrange(0, k as int));
                    }
                    add_factor_aliases(&mut map, &t.joins[k]);
                    proof {
                        assert(pairs_view(map.pairs@) =~= base + factor_alias_pairs(t.relation) + joins_alias_pairs(t.joins@.subrange(0, k + 1)));
                    }
                    k = k + 1;
                }
                proof {
                    assert(t.joins@.subrange(0, k as int) =~= t.joins@);
                }
                i = i + 1;
            }
            proof {
                assert(s.from@.subrange(0, i as int) =~= s.from@);
            }
        },
        _ => {},
    }
    map
}


/// The common table expressions in scope, each with the lineage of its query.
pub type CteLineages = Vec<(String, Vec<ColumnLineage>)>;

/// The abstract value of the common table expressions in scope.
pub open spec fn env_view(v: Seq<(String, Vec<ColumnLineage>)>) -> LineageEnv {
    v.map_values(|p: (String, Vec<ColumnLineage>)| (p.0@, lineages_view(p.1@)))
}

/// The abstract value of an optional string.
pub open spec fn opt_text(o: Option<String>) -> Option<Seq<char>> {
    match o {
        Some(t) => Some(t@),
        None => None,
    }
}

/// The position of the last common table expression in scope named `t`, as
/// `env_lookup` states.
fn env_lookup_exec(env: &CteLineages, t: &str) -> (r: Option<usize>)
    ensures
        match r {
            Some(j) => j < env@.len() && env_lookup(env_view(env@), t@) == Some(lineages_view(env@[j as int].1@)),
            None => env_lookup(env_view(env@), t@) is None,
        },
{
    let ghost ev = env_view(env@);
    let mut j: usize = env.len();
    proof {
        assert(ev.subrange(0, j as int) =~= ev);
    }
    while j > 0
        invariant
            ev == env_view(env@),
            j <= env@.len(),
            env_lookup(ev, t@) == env_lookup(ev.subrange(0, j as int), t@),
        decreases j,
    {
        let ghost pre = ev.subrange(0, j as int);
        proof {
            assert(pre.drop_last() =~= ev.subrange(0, j - 1));
            assert(pre.last() == ev[j - 1]);
            assert(ev[j - 1] == (env@[j - 1].0@, lineages_view(env@[j - 1].1@)));
        }
        if str_eq(env[j - 1].0.as_str(), t) {
            return Some(j - 1);
        }
        j = j - 1;
    }
    None
}

/// The position of the first entry of a lineage that writes column `c`, as
/// `column_entry` states.
fn column_entry_exec(ls: &Vec<ColumnLineage>, c: &str) -> (r: Option<usize>)
    ensures
        match r {
            Some(k) => k < ls@.len() && column_entry(lineages_view(ls@), c@) == Some(ls@[k as int]@),
            None => column_entry(lineages_view(ls@), c@) is None,
        },
{
    let ghost lv = lineages_view(ls@);
    let mut i: usize = 0;
    proof {
        assert(lv.subrange(0, lv.len() as int) =~= lv);
    }
    while i < ls.len()
        invariant
            lv == lineages_view(ls@),
            i <= ls@.len(),
            column_entry(lv, c@) == column_entry(lv.subrange(i as int, lv.len() as int), c@),
        decreases ls@.len() - i,
    {
        let ghost rest = lv.subrange(i as int, lv.len() as int);
        proof {
            assert(rest[0] == lv[i as int]);
            assert(rest.drop_first() =~= lv.subrange(i + 1, lv.len() as int));
        }
        if str_eq(ls[i].target_column.as_str(), c) {
            return Some(i);
        }
        i = i + 1;
    }
    None
}

/// What column `c` of table `t` is built from, as `table_column` states.
fn table_column_exec(env: &CteLineages, t: String, c: String) -> (r: (Vec<SourceColumn>, TransformKind))
    ensures
        sources_view(r.0@) == table_column(env_view(env@), t@, c@).0,
        r.1@ == table_column(env_view(env@), t@, c@).1,
{
    match env_lookup_exec(env, t.as_str()) {
        Some(j) => match column_entry_exec(&env[j].1, c.as_str()) {
            Some(k) => {
                let l = env[j].1[k].clone();
                (l.source_columns, l.transform)
            },
            None => (one_source(Some(t), c), TransformKind::Direct),
        },
        None => (one_source(Some(t), c), TransformKind::Direct),
    }
}

/// The table an unqualified column of a select is read from, as `default_table`
/// states.
fn default_table_exec(s: &SqlSelect) -> (r: Option<String>)
    ensures
        opt_text(r) == default_table(*s),
{
    if s.from.len() == 1 && s.from[0].joins.len() == 0 {
        match &s.from[0].relation {
            SqlTableFactor::Table { name, .. } => Some(to_lowercase(join_with_dots(name).as_str())),
            _ => None,
        }
    } else {
        None
    }
}

// ===== Expressions =====

/// The key under which duplicate upstream columns are recognised: the table (empty
/// when unknown), a dot, the column.
pub open spec fn source_key(s: SourceView) -> Seq<char> {
    let t = match s.table {
        Some(t) => t,
        None => Seq::empty(),
    };
    t + seq!['.'] + s.column
}

/// The upstream columns without repeats: each is kept unless an earlier one has
/// the same key.
pub open spec fn dedup(ss: Seq<SourceView>) -> Seq<SourceView>
    decreases ss.len(),
{
    if ss.len() == 0 {
        Seq::empty()
    } else {
        let d = dedup(ss.drop_last());
        if exists|i: int| 0 <= i < ss.len() - 1 && source_key(ss[i]) == source_key(ss.last()) {
            d
        } else {
            d.push(ss.last())
        }
    }
}

/// The function name is that of a window function.
pub open spec fn is_window_name(f: Seq<char>) -> bool {
    ||| has_substring(f, "LAG"@)
    ||| has_substring(f, "LEAD"@)
    ||| has_substring(f, "ROW_NUMBER"@)
    ||| has_substring(f, "RANK"@)
    ||| has_substring(f, "DENSE_RANK"@)
    ||| has_substring(f, "NTILE"@)
    ||| has_substring(f, "FIRST_VALUE"@)
    ||| has_substring(f, "LAST_VALUE"@)
    ||| has_substring(f, "NTH_VALUE"@)
}

/// The function name is that of an aggregate function.
pub open spec fn is_aggregate_name(f: Seq<char>) -> bool {
    ||| has_substring(f, "SUM"@)
    ||| has_substring(f, "COUNT"@)
    ||| has_substring(f, "AVG"@)
    ||| has_substring(f, "MIN"@)
    ||| has_substring(f, "MAX"@)
    ||| has_substring(f, "ARRAY_AGG"@)
    ||| has_substring(f, "LISTAGG"@)
    ||| has_substring(f, "MEDIAN"@)
}

/// How a function call transforms its arguments: a window function when its
/// (upper-case) name contains a window function's name or it has `OVER`, else an
/// aggregation when the name contains an aggregate's name, else an expression.
pub open spec fn function_transform(f: Seq<char>, has_over: bool) -> TransformView {
    if is_window_name(f) || has_over {
        TransformView::Window(f)
    } else if is_aggregate_name(f) {
        TransformView::Aggregation(f)
    } else {
        TransformView::Expression
    }
}

/// The upstream columns an expression reads and how it transforms them. `am` maps
/// the select's table aliases to table names, `env` holds the common table
/// expressions in scope and `dt` is the table an unqualified column is read from,
/// where there is one. A column reference is followed through the aliases and the
/// CTEs to the tables they read.
pub open spec fn analyze(e: SqlExpr, am: AliasView, env: LineageEnv, dt: Option<Seq<char>>) -> (Seq<SourceView>, TransformView)
    decreases e,
{
    match e.kind {
        SqlExprKind::Identifier(v) => match dt {
            Some(t) => table_column(env, t, lowercase(v@)),
            None => (seq![SourceView { table: None, column: lowercase(v@) }], TransformView::Direct),
        },
        SqlExprKind::CompoundIdentifier(ps) => if ps@.len() >= 2 {
            table_column(env, resolve(am, lowercase(ps@[ps@.len() - 2]@)), lowercase(ps@.last()@))
        } else {
            (Seq::empty(), TransformView::Unknown)
        },
        SqlExprKind::Function { name, args, has_over } => (
            args_sources(args@, am, env, dt),
            function_transform(uppercase(name_text(name@)), has_over),
        ),
        SqlExprKind::Case { operand, conditions, else_result } => (
            dedup(
                match operand {
                    Some(o) => analyze(*o, am, env, dt).0,
                    None => Seq::empty(),
                } + conditions_sources(conditions@, am, env, dt) + match else_result {
                    Some(x) => analyze(*x, am, env, dt).0,
                    None => Seq::empty(),
                },
            ),
            TransformView::Expression,
        ),
        SqlExprKind::BinaryOp(l, r) => (
            dedup(analyze(*l, am, env, dt).0 + analyze(*r, am, env, dt).0),
            TransformView::Expression,
        ),
        SqlExprKind::UnaryOp(x) => (analyze(*x, am, env, dt).0, TransformView::Expression),
        SqlExprKind::Cast(x) => analyze(*x, am, env, dt),
        SqlExprKind::Nested(x) => analyze(*x, am, env, dt),
        SqlExprKind::Value => (Seq::empty(), TransformView::Constant),
        SqlExprKind::Subquery => (Seq::empty(), TransformView::Expression),
        SqlExprKind::Other => (Seq::empty(), TransformView::Constant),
    }
}

/// The upstream columns read by a function's arguments, in order: those of each
/// expression argument, and `table.*` for a qualified wildcard.
pub open spec fn args_sources(args: Seq<SqlFunctionArg>, am: AliasView, env: LineageEnv, dt: Option<Seq<char>>) -> Seq<SourceView>
    decreases args,
{
    if args.len() == 0 {
        Seq::empty()
    } else {
        args_sources(args.drop_last(), am, env, dt) + match args.last() {
            SqlFunctionArg::Expr(e) => analyze(e, am, env, dt).0,
            SqlFunctionArg::QualifiedWildcard(n) => seq![SourceView {
                table: Some(resolve(am, lowercase(name_text(n@)))),
                column: "*"@,
            }],
            SqlFunctionArg::Wildcard => Seq::empty(),
        }
    }
}

/// The upstream columns read by the `WHEN` branches of a `CASE`: each condition,
/// then its result.
pub open spec fn conditions_sources(cs: Seq<(SqlExpr, SqlExpr)>, am: AliasView, env: LineageEnv, dt: Option<Seq<char>>) -> Seq<SourceView>
    decreases cs,
{
    if cs.len() == 0 {
        Seq::empty()
    } else {
        conditions_sources(cs.drop_last(), am, env, dt) + analyze(cs.last().0, am, env, dt).0 + analyze(
            cs.last().1,
            am,
            env,
            dt,
        ).0
    }
}

fn append_columns(dst: &mut Vec<SourceColumn>, src: Vec<SourceColumn>)
    ensures
        sources_view(final(dst)@) == sources_view(old(dst)@) + sources_view(src@),
{
    let mut src = src;
    let ghost s0 = src@;
    dst.append(&mut src);
    proof {
        assert(sources_view(dst@) =~= sources_view(old(dst)@) + sources_view(s0));
    }
}

fn source_key_exec(s: &SourceColumn) -> (r: String)
    ensures
        r@ == source_key(s@),
{
    let mut k = String::new();
    match &s.table {
        Some(t) => {
            k.append(t.as_str());
        },
        None => {},
    }
    k.append(".");
    k.append(s.column.as_str());
    proof {
        reveal_strlit(".");
        assert(k@ =~= source_key(s@));
    }
    k
}

/// Drops repeated upstream columns, as `dedup` states.
fn dedup_sources(sources: Vec<SourceColumn>) -> (r: Vec<SourceColumn>)
    ensures
        sources_view(r@) == dedup(sources_view(sources@)),
{
    let ghost sv = sources_view(sources@);
    let mut seen: Vec<String> = Vec::new();
    let mut out: Vec<SourceColumn> = Vec::new();
    let mut i: usize = 0;
    proof {
        assert(sv.subrange(0, 0) =~= Seq::<SourceView>::empty());
    }
    while i < sources.len()
        invariant
            sv == sources_view(sources@),
            i <= sources@.len(),
            strings_view(seen@) == sv.subrange(0, i as int).map_values(|x: SourceView| source_key(x)),
            sources_view(out@) == dedup(sv.subrange(0, i as int)),
        decreases sources@.len() - i,
    {
        let key = source_key_exec(&sources[i]);
        let ghost pre = sv.subrange(0, i + 1);
        proof {
            assert(pre.drop_last() =~= sv.subrange(0, i as int));
            assert(pre.last() == sv[i as int]);
        }
        let dup = contains_string(&seen, key.as_str());
        proof {
            let keys = sv.subrange(0, i as int).map_values(|x: SourceView| source_key(x));
            if dup {
                let j = choose|j: int| 0 <= j < keys.len() && keys[j] == key@;
                assert(source_key(pre[j]) == source_key(pre.last()));
            } else {
                assert forall|j: int| 0 <= j < pre.len() - 1 implies source_key(pre[j]) != source_key(pre.last()) by {
                    assert(keys[j] == source_key(pre[j]));
                }
            }
        }
        if !dup {
            let ghost before = out@;
            let item = sources[i].clone();
            out.push(item);
            proof {
                assert(sources_view(out@) =~= sources_view(before).push(sv[i as int]));
            }
        }
        let ghost seen_before = seen@;
        seen.push(key);
        proof {
            assert(strings_view(seen@) =~= strings_view(seen_before).push(source_key(sv[i as int])));
            assert(sv.subrange(0, i + 1).map_values(|x: SourceView| source_key(x)) =~= sv.subrange(0, i as int).map_values(|x: SourceView| source_key(x)).push(source_key(sv[i as int])));
        }
        i = i + 1;
    }
    proof {
        assert(sv.subrange(0, i as int) =~= sv);
    }
    out
}

fn no_sources() -> (r: Vec<SourceColumn>)
    ensures
        sources_view(r@) == Seq::<SourceView>::empty(),
{
    let v: Vec<SourceColumn> = Vec::new();
    proof {
        assert(sources_view(v@) =~= Seq::<SourceView>::empty());
    }
    v
}

fn one_source(table: Option<String>, column: String) -> (r: Vec<SourceColumn>)
    ensures
        sources_view(r@) == seq![SourceColumn { table, column }@],
{
    let mut v: Vec<SourceColumn> = Vec::new();
    v.push(SourceColumn { table, column });
    proof {
        assert(sources_view(v@) =~= seq![SourceColumn { table, column }@]);
    }
    v
}

fn function_transform_exec(f: String, has_over: bool) -> (r: TransformKind)
    ensures
        r@ == function_transform(f@, has_over),
{
    let window = contains_str(f.as_str(), "LAG") || contains_str(f.as_str(), "LEAD")
        || contains_str(f.as_str(), "ROW_NUMBER") || contains_str(f.as_str(), "RANK")
        || contains_str(f.as_str(), "DENSE_RANK") || contains_str(f.as_str(), "NTILE")
        || contains_str(f.as_str(), "FIRST_VALUE") || contains_str(f.as_str(), "LAST_VALUE")
        || contains_str(f.as_str(), "NTH_VALUE");
    if window || has_over {
        return TransformKind::Window(f);
    }
    let aggregate = contains_str(f.as_str(), "SUM") || contains_str(f.as_str(), "COUNT")
        || contains_str(f.as_str(), "AVG") || contains_str(f.as_str(), "MIN")
        || contains_str(f.as_str(), "MAX") || contains_str(f.as_str(), "ARRAY_AGG")
        || contains_str(f.as_str(), "LISTAGG") || contains_str(f.as_str(), "MEDIAN");
    if aggregate {
        TransformKind::Aggregation(f)
    } else {
        TransformKind::Expression
    }
}

/// The upstream columns an expression reads and how, as `analyze` states.
fn analyze_expr(e: &SqlExpr, am: &AliasMap, env: &CteLineages, dt: &Option<String>) -> (r: (Vec<SourceColumn>, TransformKind))
    ensures
        sources_view(r.0@) == analyze(*e, am@, env_view(env@), opt_text(*dt)).0,
        r.1@ == analyze(*e, am@, env_view(env@), opt_text(*dt)).1,
    decreases e,
{
    match &e.kind {
        SqlExprKind::Identifier(v) => {
            let c = to_lowercase(v.as_str());
            match dt {
                Some(t) => table_column_exec(env, copy_str(t.as_str()), c),
                None => (one_source(None, c), TransformKind::Direct),
            }
        },
        SqlExprKind::CompoundIdentifier(ps) => {
            if ps.len() >= 2 {
                let alias = to_lowercase(ps[ps.len() - 2].as_str());
                let table = am.resolve(alias.as_str());
                let column = to_lowercase(ps[ps.len() - 1].as_str());
                table_column_exec(env, table, column)
            } else {
                (no_sources(), TransformKind::Unknown)
            }
        },
        SqlExprKind::Function { name, args, has_over } => {
            let f = to_uppercase(join_with_dots(name).as_str());
            let sources = args_sources_exec(args, am, env, dt);
            (sources, function_transform_exec(f, *has_over))
        },
        SqlExprKind::Case { operand, conditions, else_result } => {
            let mut sources: Vec<SourceColumn> = Vec::new();
            match operand {
                Some(o) => {
                    let (s, _) = analyze_expr(o, am, env, dt);
                    append_columns(&mut sources, s);
                },
                None => {},
            }
            let cs = conditions_sources_exec(conditions, am, env, dt);
            append_columns(&mut sources, cs);
            match else_result {
                Some(x) => {
                    let (s, _) = analyze_expr(x, am, env, dt);
                    append_columns(&mut sources, s);
                },
                None => {},
            }
            proof {
                let a = match operand {
                    Some(o) => analyze(**o, am@, env_view(env@), opt_text(*dt)).0,
                    None => Seq::<SourceView>::empty(),
                };
                let b = match else_result {
                    Some(x) => analyze(**x, am@, env_view(env@), opt_text(*dt)).0,
                    None => Seq::<SourceView>::empty(),
                };
                assert(sources_view(sources@) =~= a + conditions_sources(conditions@, am@, env_view(env@), opt_text(*dt)) + b);
            }
            (dedup_sources(sources), TransformKind::Expression)
        },
        SqlExprKind::BinaryOp(l, r) => {
            let (mut s1, _) = analyze_expr(l, am, env, dt);
            let (s2, _) = analyze_expr(r, am, env, dt);
            append_columns(&mut s1, s2);
            (dedup_sources(s1), TransformKind::Expression)
        },
        SqlExprKind::UnaryOp(x) => {
            let (s, _) = analyze_expr(x, am, env, dt);
            (s, TransformKind::Expression)
        },
        SqlExprKind::Cast(x) => analyze_expr(x, am, env, dt),
        SqlExprKind::Nested(x) => analyze_expr(x, am, env, dt),
        SqlExprKind::Value => {
            (no_sources(), TransformKind::Constant)
        },
        SqlExprKind::Subquery => {
            (no_sources(), TransformKind::Expression)
        },
        SqlExprKind::Other => {
            (no_sources(), TransformKind::Constant)
        },
    }
}

/// The upstream columns of a function's arguments, as `args_sources` states.
fn args_sources_exec(args: &Vec<SqlFunctionArg>, am: &AliasMap, env: &CteLineages, dt: &Option<String>) -> (r: Vec<SourceColumn>)
    ensures
        sources_view(r@) == args_sources(args@, am@, env_view(env@), opt_text(*dt)),
    decreases args,
{
    let mut sources: Vec<SourceColumn> = Vec::new();
    let mut i: usize = 0;
    proof {
        assert(sources_view(sources@) =~= args_sources(args@.subrange(0, 0), am@, env_view(env@), opt_text(*dt)));
    }
    while i < args.len()
        invariant
            i <= args@.len(),
            sources_view(sources@) == args_sources(args@.subrange(0, i as int), am@, env_view(env@), opt_text(*dt)),
        decreases args@.len() - i,
    {
        proof {
            assert(args@.subrange(0, i + 1).drop_last() =~= args@.subrange(0, i as int));
        }
        match &args[i] {
            SqlFunctionArg::Expr(e) => {
                let (s, _) = analyze_expr(e, am, env, dt);
                append_columns(&mut sources, s);
            },
            SqlFunctionArg::QualifiedWildcard(n) => {
                let prefix = to_lowercase(join_with_dots(n).as_str());
                let table = am.resolve(prefix.as_str());
                let star = copy_str("*");
                append_columns(&mut sources, one_source(Some(table), star));
            },
            SqlFunctionArg::Wildcard => {
                proof {
                    assert(sources_view(sources@) =~= sources_view(sources@) + Seq::<SourceView>::empty());
                }
            },
        }
        i = i + 1;
    }
    proof {
        assert(args@.subrange(0, i as int) =~= args@);
    }
    sources
}

/// The upstream columns of the `WHEN` branches of a `CASE`, as `conditions_sources`
/// states.
fn conditions_sources_exec(cs: &Vec<(SqlExpr, SqlExpr)>, am: &AliasMap, env: &CteLineages, dt: &Option<String>) -> (r: Vec<SourceColumn>)
    ensures
        sources_view(r@) == conditions_sources(cs@, am@, env_view(env@), opt_text(*dt)),
    decreases cs,
{
    let mut sources: Vec<SourceColumn> = Vec::new();
    let mut i: usize = 0;
    proof {
        assert(sources_view(sources@) =~= conditions_sources(cs@.subrange(0, 0), am@, env_view(env@), opt_text(*dt)));
    }
    while i < cs.len()
        invariant
            i <= cs@.len(),
            sources_view(sources@) == conditions_sources(cs@.subrange(0, i as int), am@, env_view(env@), opt_text(*dt)),
        decreases cs@.len() - i,
    {
        proof {
            assert(cs@.subrange(0, i + 1).drop_last() =~= cs@.subrange(0, i as int));
        }
        let (c, r) = &cs[i];
        let (s1, _) = analyze_expr(c, am, env, dt);
        append_columns(&mut sources, s1);
        let (s2, _) = analyze_expr(r, am, env, dt);
        append_columns(&mut sources, s2);
        i = i + 1;
    }
    proof {
        assert(cs@.subrange(0, i as int) =~= cs@);
    }
    sources
}


// ===== Select lists and queries =====

/// The lineage of one select-list item writing into `target`: an expression gives
/// its column (its alias, its plain column name, or else its text, lower-cased),
/// upstream columns, transform and text, as `analyze` states; `*` gives a lone `*`
/// column; `prefix.*` gives `prefix.*` read from the table the prefix stands for.
pub open spec fn item_lineage(
    item: SqlSelectItem,
    target: Seq<char>,
    am: AliasView,
    env: LineageEnv,
    dt: Option<Seq<char>>,
) -> Option<LineageView> {
    match item {
        SqlSelectItem::Unnamed(e) => Some(LineageView {
            target_table: target,
            target_column: lowercase(
                match expr_column_name(e) {
                    Some(n) => n,
                    None => e.text@,
                },
            ),
            source_columns: analyze(e, am, env, dt).0,
            transform: analyze(e, am, env, dt).1,
            expression: e.text@,
        }),
        SqlSelectItem::WithAlias(e, a) => Some(LineageView {
            target_table: target,
            target_column: lowercase(a@),
            source_columns: analyze(e, am, env, dt).0,
            transform: analyze(e, am, env, dt).1,
            expression: e.text@,
        }),
        SqlSelectItem::Wildcard => Some(LineageView {
            target_table: target,
            target_column: "*"@,
            source_columns: Seq::empty(),
            transform: TransformView::Direct,
            expression: "*"@,
        }),
        SqlSelectItem::QualifiedWildcard(p) => Some(LineageView {
            target_table: target,
            target_column: lowercase(p@) + ".*"@,
            source_columns: seq![SourceView { table: Some(resolve(am, lowercase(p@))), column: "*"@ }],
            transform: TransformView::Direct,
            expression: lowercase(p@) + ".*"@,
        }),
        SqlSelectItem::Other => None,
    }
}

/// The lineage of a select list, item by item; column references are followed
/// through the aliases `am` and the common table expressions `env` to the tables
/// they read, and an unqualified column is read from `dt` where there is one.
pub open spec fn select_lineage(
    items: Seq<SqlSelectItem>,
    target: Seq<char>,
    am: AliasView,
    env: LineageEnv,
    dt: Option<Seq<char>>,
) -> Seq<LineageView>
    decreases items.len(),
{
    if items.len() == 0 {
        Seq::empty()
    } else {
        let rest = select_lineage(items.drop_last(), target, am, env, dt);
        match item_lineage(items.last(), target, am, env, dt) {
            Some(l) => rest.push(l),
            None => rest,
        }
    }
}

/// The lineage is a lone `*` column.
pub open spec fn is_only_star(r: Seq<LineageView>) -> bool {
    r.len() == 1 && r[0].target_column == "*"@
}

/// The (lower-case) name of the first `FROM` table of a select, when it is a named
/// table.
pub open spec fn first_from_table(s: SqlSelect) -> Option<Seq<char>> {
    if s.from@.len() > 0 {
        match s.from@[0].relation {
            SqlTableFactor::Table { name, .. } => Some(lowercase(name_text(name@))),
            _ => None,
        }
    } else {
        None
    }
}

/// The common table expressions `outer` holds, then those of a list, in order:
/// each with the lineage of its query (written into no table), computed with the
/// ones before it in scope.
pub open spec fn with_env(cs: Seq<SqlCte>, outer: LineageEnv) -> LineageEnv
    decreases cs,
{
    if cs.len() == 0 {
        outer
    } else {
        let e = with_env(cs.drop_last(), outer);
        let c = cs[cs.len() - 1];
        e.push((lowercase(c.name@), query_lineage(*c.query, Seq::empty(), query_alias_map(*c.query), e)))
    }
}

/// The column lineage of a query writing into `target`, the common table
/// expressions `outer` in scope. Only a plain select has any. Its columns are read
/// with the query's own CTEs also in scope, so that a column read through an alias
/// or a CTE name is followed to the tables the CTE reads. When the select is a
/// lone `SELECT *` from a common table expression, the lineage of that CTE's query
/// is taken instead (its aliases added to the map), provided it is neither empty
/// nor itself a lone `*`.
pub open spec fn query_lineage(q: SqlQuery, target: Seq<char>, am: AliasView, outer: LineageEnv) -> Seq<LineageView>
    decreases q,
{
    let env = with_env(q.ctes@, outer);
    match *q.body {
        SqlSetExpr::Select(s) => {
            let result = select_lineage(s.projection@, target, am, env, default_table(*s));
            if is_only_star(result) {
                match first_from_table(*s) {
                    Some(from) => cte_passthrough(q.ctes@, from, target, am, env, result),
                    None => result,
                }
            } else {
                result
            }
        },
        _ => Seq::empty(),
    }
}

/// Tries, in order, the common table expressions named `from`: the first whose
/// lineage (with `env` in scope) is neither empty nor a lone `*` gives the result,
/// otherwise `fallback`.
pub open spec fn cte_passthrough(
    cs: Seq<SqlCte>,
    from: Seq<char>,
    target: Seq<char>,
    am: AliasView,
    env: LineageEnv,
    fallback: Seq<LineageView>,
) -> Seq<LineageView>
    decreases cs,
{
    if cs.len() == 0 {
        fallback
    } else {
        let c = cs[0];
        let tried = if lowercase(c.name@) == from {
            let r = query_lineage(*c.query, target, am.union_prefer_right(query_alias_map(*c.query)), env);
            if !(r.len() == 0 || is_only_star(r)) {
                Some(r)
            } else {
                None
            }
        } else {
            None
        };
        match tried {
            Some(r) => r,
            None => cte_passthrough(cs.drop_first(), from, target, am, env, fallback),
        }
    }
}

fn item_lineage_exec(item: &SqlSelectItem, target: &str, am: &AliasMap, env: &CteLineages, dt: &Option<String>) -> (r: Option<ColumnLineage>)
    ensures
        match r {
            Some(l) => item_lineage(*item, target@, am@, env_view(env@), opt_text(*dt)) == Some(l@),
            None => item_lineage(*item, target@, am@, env_view(env@), opt_text(*dt)) is None,
        },
{
    match item {
        SqlSelectItem::Unnamed(e) => {
            let name = match crate::sql::expr_column_name_exec(e) {
                Some(n) => to_lowercase(n.as_str()),
                None => to_lowercase(e.text.as_str()),
            };
            let (sources, transform) = analyze_expr(e, am, env, dt);
            Some(ColumnLineage {
                target_table: copy_str(target),
                target_column: name,
                source_columns: sources,
                transform,
                expression: e.text.clone(),
            })
        },
        SqlSelectItem::WithAlias(e, a) => {
            let (sources, transform) = analyze_expr(e, am, env, dt);
            Some(ColumnLineage {
                target_table: copy_str(target),
                target_column: to_lowercase(a.as_str()),
                source_columns: sources,
                transform,
                expression: e.text.clone(),
            })
        },
        SqlSelectItem::Wildcard => {
            Some(ColumnLineage {
                target_table: copy_str(target),
                target_column: copy_str("*"),
                source_columns: no_sources(),
                transform: TransformKind::Direct,
                expression: copy_str("*"),
            })
        },
        SqlSelectItem::QualifiedWildcard(p) => {
            let prefix = to_lowercase(p.as_str());
            let table = am.resolve(prefix.as_str());
            let column = prefix.clone().concat(".*");
            let expression = prefix.concat(".*");
            Some(ColumnLineage {
                target_table: copy_str(target),
                target_column: column,
                source_columns: one_source(Some(table), copy_str("*")),
                transform: TransformKind::Direct,
                expression,
            })
        },
        SqlSelectItem::Other => None,
    }
}

fn select_lineage_exec(items: &Vec<SqlSelectItem>, target: &str, am: &AliasMap, env: &CteLineages, dt: &Option<String>) -> (r: Vec<ColumnLineage>)
    ensures
        lineages_view(r@) == select_lineage(items@, target@, am@, env_view(env@), opt_text(*dt)),
{
    let mut out: Vec<ColumnLineage> = Vec::new();
    let mut i: usize = 0;
    proof {
        assert(lineages_view(out@) =~= select_lineage(items@.subrange(0, 0), target@, am@, env_view(env@), opt_text(*dt)));
    }
    while i < items.len()
        invariant
            i <= items@.len(),
            lineages_view(out@) == select_lineage(items@.subrange(0, i as int), target@, am@, env_view(env@), opt_text(*dt)),
        decreases items@.len() - i,
    {
        proof {
            assert(items@.subrange(0, i + 1).drop_last() =~= items@.subrange(0, i as int));
        }
        match item_lineage_exec(&items[i], target, am, env, dt) {
            Some(l) => {
                let ghost before = out@;
                out.push(l);
                proof {
                    assert(lineages_view(out@) =~= lineages_view(before).push(l@));
                }
            },
            None => {},
        }
        i = i + 1;
    }
    proof {
        assert(items@.subrange(0, i as int) =~= items@);
    }
    out
}

fn is_only_star_exec(r: &Vec<ColumnLineage>) -> (b: bool)
    ensures
        b == is_only_star(lineages_view(r@)),
{
    r.len() == 1 && str_eq(r[0].target_column.as_str(), "*")
}

fn first_from_table_exec(s: &SqlSelect) -> (r: Option<String>)
    ensures
        match r {
            Some(t) => first_from_table(*s) == Some(t@),
            None => first_from_table(*s) is None,
        },
{
    if s.from.len() > 0 {
        match &s.from[0].relation {
            SqlTableFactor::Table { name, .. } => Some(to_lowercase(join_with_dots(name).as_str())),
            _ => None,
        }
    } else {
        None
    }
}

/// The column lineage of a query, the common table expressions `env` in scope, as
/// `query_lineage` states. `env` is extended with the query's own CTEs while its
/// columns are read, and handed back as it came.
fn query_lineage_exec(q: &SqlQuery, target: &str, am: &AliasMap, env: &mut CteLineages) -> (r: Vec<ColumnLineage>)
    ensures
        lineages_view(r@) == query_lineage(*q, target@, am@, env_view(old(env)@)),
        final(env)@ == old(env)@,
    decreases q,
{
    let ghost e0 = env@;
    let n = env.len();
    let mut i: usize = 0;
    proof {
        assert(q.ctes@.subrange(0, 0) =~= Seq::<SqlCte>::empty());
        assert(env@.subrange(0, n as int) =~= e0);
    }
    while i < q.ctes.len()
        invariant
            i <= q.ctes@.len(),
            n == e0.len(),
            env@.len() == n + i,
            env@.subrange(0, n as int) == e0,
            env_view(env@) == with_env(q.ctes@.subrange(0, i as int), env_view(e0)),
        decreases q.ctes@.len() - i,
    {
        let cte = &q.ctes[i];
        proof {
            let cs = q.ctes@.subrange(0, i + 1);
            assert(cs.drop_last() =~= q.ctes@.subrange(0, i as int));
            assert(cs[cs.len() - 1] == q.ctes@[i as int]);
            assert(decreases_to!(q => q.ctes));
        }
        let cam = build_alias_map(&cte.query);
        let nothing = String::new();
        let l = query_lineage_exec(&cte.query, nothing.as_str(), &cam, env);
        let ghost before = env@;
        env.push((to_lowercase(cte.name.as_str()), l));
        proof {
            assert(env@.subrange(0, n as int) =~= before.subrange(0, n as int));
            assert(env_view(env@) =~= env_view(before).push((lowercase(cte.name@), lineages_view(l@))));
        }
        i = i + 1;
    }
    proof {
        assert(q.ctes@.subrange(0, i as int) =~= q.ctes@);
    }
    let ghost ev = env_view(env@);
    let ghost e1 = env@;
    let result: Vec<ColumnLineage> = match &*q.body {
        SqlSetExpr::Select(s) => {
            let dt = default_table_exec(s);
            let base = select_lineage_exec(&s.projection, target, am, env, &dt);
            if !is_only_star_exec(&base) {
                base
            } else {
                match first_from_table_exec(s) {
                    None => base,
                    Some(from) => {
                        let mut found: Option<Vec<ColumnLineage>> = None;
                        let mut k: usize = 0;
                        proof {
                            assert(q.ctes@.subrange(0, q.ctes@.len() as int) =~= q.ctes@);
                        }
                        while k < q.ctes.len()
                            invariant
                                k <= q.ctes@.len(),
                                ev == env_view(env@),
                                env@ == e1,
                                cte_passthrough(q.ctes@, from@, target@, am@, ev, lineages_view(base@))
                                    == match found {
                                    Some(r) => lineages_view(r@),
                                    None => cte_passthrough(
                                        q.ctes@.subrange(k as int, q.ctes@.len() as int),
                                        from@,
                                        target@,
                                        am@,
                                        ev,
                                        lineages_view(base@),
                                    ),
                                },
                            decreases q.ctes@.len() - k,
                        {
                            if found.is_none() {
                                let cte = &q.ctes[k];
                                let ghost rest = q.ctes@.subrange(k as int, q.ctes@.len() as int);
                                proof {
                                    assert(rest[0] == q.ctes@[k as int]);
                                    assert(rest.drop_first() =~= q.ctes@.subrange(k + 1, q.ctes@.len() as int));
                                    assert(decreases_to!(q => q.ctes));
                                }
                                let name = to_lowercase(cte.name.as_str());
                                if str_eq(name.as_str(), from.as_str()) {
                                    let cte_am = build_alias_map(&cte.query);
                                    let merged = am.merged(&cte_am);
                                    let cte_result = query_lineage_exec(&cte.query, target, &merged, env);
                                    if !(cte_result.len() == 0 || is_only_star_exec(&cte_result)) {
                                        found = Some(cte_result);
                                    }
                                }
                            }
                            k = k + 1;
                        }
                        proof {
                            assert(q.ctes@.subrange(k as int, q.ctes@.len() as int) =~= Seq::<SqlCte>::empty());
                        }
                        match found {
                            Some(r) => r,
                            None => base,
                        }
                    },
                }
            }
        },
        _ => {
            let v: Vec<ColumnLineage> = Vec::new();
            proof {
                assert(lineages_view(v@) =~= Seq::<LineageView>::empty());
            }
            v
        },
    };
    proof {
        assert(env@ == e1);
        assert(e1.subrange(0, n as int) == e0);
    }
    env.truncate(n);
    proof {
        assert(env@ =~= e0);
    }
    result
}

/// The column lineage of a query with no common table expression but its own in
/// scope.
fn top_query_lineage(q: &SqlQuery, target: &str, am: &AliasMap) -> (r: Vec<ColumnLineage>)
    ensures
        lineages_view(r@) == query_lineage(*q, target@, am@, Seq::empty()),
{
    let mut env: CteLineages = Vec::new();
    proof {
        assert(env_view(env@) =~= Seq::<(Seq<char>, Seq<LineageView>)>::empty());
    }
    query_lineage_exec(q, target, am, &mut env)
}

// ===== Statements =====

/// The column lineage of a statement: that of the query of a `CREATE TABLE ... AS`
/// or `CREATE VIEW`, written into the (lower-case) created name, with the query's
/// alias map and no common table expression but the query's own in scope. Other
/// statements have none.
pub open spec fn statement_lineage(s: SqlStatement) -> Seq<LineageView> {
    match s {
        SqlStatement::CreateTable { name, query, .. } => match query {
            Some(q) => query_lineage(*q, lowercase(name_text(name@)), query_alias_map(*q), Seq::empty()),
            None => Seq::empty(),
        },
        SqlStatement::CreateView { name, query } => query_lineage(
            *query,
            lowercase(name_text(name@)),
            query_alias_map(*query),
            Seq::empty(),
        ),
        _ => Seq::empty(),
    }
}

/// The column lineage of a list of statements, in order.
pub open spec fn statements_lineage(ss: Seq<SqlStatement>) -> Seq<LineageView>
    decreases ss.len(),
{
    if ss.len() == 0 {
        Seq::empty()
    } else {
        statements_lineage(ss.drop_last()) + statement_lineage(ss.last())
    }
}

/// The column lineage of a SQL file: none when it holds Jinja or does not parse.
pub open spec fn sql_file_lineage(content: Seq<char>) -> Seq<LineageView> {
    if has_substring(content, "{{"@) {
        Seq::empty()
    } else {
        match parsed_sql(content) {
            Some(ss) => statements_lineage(ss),
            None => Seq::empty(),
        }
    }
}

fn append_lineage(dst: &mut Vec<ColumnLineage>, src: Vec<ColumnLineage>)
    ensures
        lineages_view(final(dst)@) == lineages_view(old(dst)@) + lineages_view(src@),
{
    let mut src = src;
    let ghost s0 = src@;
    dst.append(&mut src);
    proof {
        assert(lineages_view(dst@) =~= lineages_view(old(dst)@) + lineages_view(s0));
    }
}

/// The column lineage of a list of statements, as `statements_lineage` states.
pub fn lineage_from_statements(statements: &Vec<SqlStatement>) -> (r: Vec<ColumnLineage>)
    ensures
        lineages_view(r@) == statements_lineage(statements@),
{
    let mut out: Vec<ColumnLineage> = Vec::new();
    let mut i: usize = 0;
    proof {
        assert(lineages_view(out@) =~= statements_lineage(statements@.subrange(0, 0)));
    }
    while i < statements.len()
        invariant
            i <= statements@.len(),
            lineages_view(out@) == statements_lineage(statements@.subrange(0, i as int)),
        decreases statements@.len() - i,
    {
        proof {
            assert(statements@.subrange(0, i + 1).drop_last() =~= statements@.subrange(0, i as int));
        }
        match &statements[i] {
            SqlStatement::CreateTable { name, query, .. } => {
                match query {
                    Some(q) => {
                        let target = to_lowercase(join_with_dots(name).as_str());
                        let am = build_alias_map(q);
                        let l = top_query_lineage(q, target.as_str(), &am);
                        append_lineage(&mut out, l);
                    },
                    None => {
                        proof {
                            assert(lineages_view(out@) =~= lineages_view(out@) + Seq::<LineageView>::empty());
                        }
                    },
                }
            },
            SqlStatement::CreateView { name, query } => {
                let target = to_lowercase(join_with_dots(name).as_str());
                let am = build_alias_map(query);
                let l = top_query_lineage(query, target.as_str(), &am);
                append_lineage(&mut out, l);
            },
            _ => {
                proof {
                    assert(lineages_view(out@) =~= lineages_view(out@) + Seq::<LineageView>::empty());
                }
            },
        }
        i = i + 1;
    }
    proof {
        assert(statements@.subrange(0, i as int) =~= statements@);
    }
    out
}

/// Column-level lineage of a SQL file (best-effort): for each output column of the
/// tables and views it creates, its upstream columns and transform. Empty when the
/// file holds Jinja (`{{`) or does not parse.
pub fn extract_column_lineage(content: &str) -> (r: Vec<ColumnLineage>)
    ensures
        lineages_view(r@) == sql_file_lineage(content@),
{
    if contains_str(content, "{{") {
        let v: Vec<ColumnLineage> = Vec::new();
        proof {
            assert(lineages_view(v@) =~= Seq::<LineageView>::empty());
        }
        return v;
    }
    match parse_sql(content) {
        Some(statements) => lineage_from_statements(&statements),
        None => {
            let v: Vec<ColumnLineage> = Vec::new();
            proof {
                assert(lineages_view(v@) =~= Seq::<LineageView>::empty());
            }
            v
        },
    }
}


/// A function call with an `OVER` clause is a window transform named by its
/// upper-case name, whatever the name is, and reads the columns its arguments
/// read; so is the output column it writes, under an alias or without one.
pub proof fn law_over_clause_makes_a_window(
    e: SqlExpr,
    target: Seq<char>,
    am: AliasView,
    env: LineageEnv,
    dt: Option<Seq<char>>,
    a: String,
)
    requires
        e.kind matches SqlExprKind::Function { has_over, .. } && has_over,
    ensures
        ({
            let name = (e.kind)->name;
            let args = (e.kind)->args;
            &&& analyze(e, am, env, dt).1 == TransformView::Window(uppercase(name_text(name@)))
            &&& analyze(e, am, env, dt).0 == args_sources(args@, am, env, dt)
            &&& item_lineage(SqlSelectItem::WithAlias(e, a), target, am, env, dt)->Some_0.transform
                == TransformView::Window(uppercase(name_text(name@)))
            &&& item_lineage(SqlSelectItem::Unnamed(e), target, am, env, dt)->Some_0.transform
                == TransformView::Window(uppercase(name_text(name@)))
        }),
{
}

} // verus!
