use vstd::prelude::*;
use sqlparser::ast;
use crate::sql_ast::{
    SqlCte, SqlExpr, SqlExprKind, SqlFunctionArg, SqlQuery, SqlSelect, SqlSelectItem, SqlSetExpr,
    SqlStatement, SqlTableFactor, SqlTableWithJoins,
};

verus! {

#[verifier::external_type_specification]
#[verifier::external_body]
pub struct ExStatement(ast::Statement);

#[verifier::external_type_specification]
#[verifier::external_body]
pub struct ExQuery(ast::Query);

#[verifier::external_type_specification]
#[verifier::external_body]
pub struct ExSetExpr(ast::SetExpr);

#[verifier::external_type_specification]
#[verifier::external_body]
pub struct ExTableWithJoins(ast::TableWithJoins);

#[verifier::external_type_specification]
#[verifier::external_body]
pub struct ExTableFactor(ast::TableFactor);

#[verifier::external_type_specification]
#[verifier::external_body]
pub struct ExSelectItem(ast::SelectItem);

#[verifier::external_type_specification]
#[verifier::external_body]
pub struct ExExpr(ast::Expr);

#[verifier::external_type_specification]
#[verifier::external_body]
pub struct ExFunctionArguments(ast::FunctionArguments);

#[verifier::external_type_specification]
#[verifier::external_body]
pub struct ExFunctionArg(ast::FunctionArg);

#[verifier::external_type_specification]
#[verifier::external_body]
pub struct ExObjectName(ast::ObjectName);

#[verifier::external_type_specification]
#[verifier::external_body]
pub struct ExInsert(ast::Insert);

/// What `sqlparser::parser::Parser::parse_sql` makes of a text with the generic
/// dialect: the statements, read into the library's model, or nothing when the
/// text does not parse.
pub uninterp spec fn parsed_sql(content: Seq<char>) -> Option<Seq<SqlStatement>>;

/// Calls `Parser::parse_sql` with `GenericDialect` and reads each statement into
/// the library's model. The result is named `parsed_sql`, a function of the text
/// alone; nothing more is claimed of it.
#[verifier::external_body]
pub(crate) fn parse_sql(content: &str) -> (r: Option<Vec<SqlStatement>>)
    ensures
        match r {
            Some(v) => parsed_sql(content@) == Some(v@),
            None => parsed_sql(content@) is None,
        },
{
    let dialect = sqlparser::dialect::GenericDialect {};
    let statements = sqlparser::parser::Parser::parse_sql(&dialect, content).ok()?;
    Some(statements.iter().map(lower_statement).collect())
}

/// Reads a parsed statement into the model (part of `parse_sql`'s conversion).
#[verifier::external_body]
fn lower_statement(s: &ast::Statement) -> SqlStatement {
    match s {
        ast::Statement::CreateTable(c) => SqlStatement::CreateTable {
            name: name_parts(&c.name),
            columns: c.columns.iter().map(|d| d.name.value.clone()).collect(),
            query: c.query.as_ref().map(|q| Box::new(lower_query(q))),
        },
        ast::Statement::CreateView(v) => SqlStatement::CreateView {
            name: name_parts(&v.name),
            query: Box::new(lower_query(&v.query)),
        },
        ast::Statement::Insert(i) => lower_insert(i),
        _ => SqlStatement::Other,
    }
}

/// Reads an `INSERT` statement into the model (part of `parse_sql`'s conversion).
#[verifier::external_body]
fn lower_insert(i: &ast::Insert) -> SqlStatement {
    SqlStatement::Insert {
        table: match &i.table {
            ast::TableObject::TableName(n) => Some(name_parts(n)),
            _ => None,
        },
        source: i.source.as_ref().map(|q| Box::new(lower_query(q))),
    }
}

/// The dotted parts of a name, each rendered (part of `parse_sql`'s conversion).
#[verifier::external_body]
fn name_parts(n: &ast::ObjectName) -> Vec<String> {
    n.0.iter().map(|p| p.to_string()).collect()
}

/// Reads a query into the model (part of `parse_sql`'s conversion).
#[verifier::external_body]
fn lower_query(q: &ast::Query) -> SqlQuery {
    let ctes = q.with.iter().flat_map(|w| w.cte_tables.iter());
    SqlQuery {
        ctes: ctes.map(|c| SqlCte {
            name: c.alias.name.value.clone(),
            query: Box::new(lower_query(&c.query)),
        }).collect(),
        body: Box::new(lower_set_expr(&q.body)),
    }
}

/// Reads a query body into the model (part of `parse_sql`'s conversion).
#[verifier::external_body]
fn lower_set_expr(e: &ast::SetExpr) -> SqlSetExpr {
    match e {
        ast::SetExpr::Select(s) => SqlSetExpr::Select(Box::new(SqlSelect {
            projection: s.projection.iter().map(lower_item).collect(),
            from: s.from.iter().map(lower_table_with_joins).collect(),
        })),
        ast::SetExpr::Query(q) => SqlSetExpr::Query(Box::new(lower_query(q))),
        ast::SetExpr::SetOperation { left, right, .. } => SqlSetExpr::SetOperation(
            Box::new(lower_set_expr(left)),
            Box::new(lower_set_expr(right)),
        ),
        _ => SqlSetExpr::Other,
    }
}

/// Reads a `FROM` item into the model (part of `parse_sql`'s conversion).
#[verifier::external_body]
fn lower_table_with_joins(t: &ast::TableWithJoins) -> SqlTableWithJoins {
    SqlTableWithJoins {
        relation: lower_table_factor(&t.relation),
        joins: t.joins.iter().map(|j| lower_table_factor(&j.relation)).collect(),
    }
}

/// Reads a table reference into the model (part of `parse_sql`'s conversion).
#[verifier::external_body]
fn lower_table_factor(f: &ast::TableFactor) -> SqlTableFactor {
    match f {
        ast::TableFactor::Table { name, alias, .. } => SqlTableFactor::Table {
            name: name_parts(name),
            alias: alias.as_ref().map(|a| a.name.value.clone()),
        },
        ast::TableFactor::Derived { subquery, .. } => SqlTableFactor::Derived(Box::new(lower_query(subquery))),
        ast::TableFactor::NestedJoin { table_with_joins, .. } => SqlTableFactor::NestedJoin(
            Box::new(lower_table_with_joins(table_with_joins)),
        ),
        _ => SqlTableFactor::Other,
    }
}

/// Reads a select-list item into the model (part of `parse_sql`'s conversion).
#[verifier::external_body]
fn lower_item(i: &ast::SelectItem) -> SqlSelectItem {
    match i {
        ast::SelectItem::UnnamedExpr(e) => SqlSelectItem::Unnamed(lower_expr(e)),
        ast::SelectItem::ExprWithAlias { expr, alias } => SqlSelectItem::WithAlias(lower_expr(expr), alias.value.clone()),
        ast::SelectItem::Wildcard(_) => SqlSelectItem::Wildcard,
        ast::SelectItem::QualifiedWildcard(kind, _) => SqlSelectItem::QualifiedWildcard(kind.to_string()),
        _ => SqlSelectItem::Other,
    }
}

/// Reads an expression and its rendered text into the model (part of `parse_sql`'s
/// conversion).
#[verifier::external_body]
fn lower_expr(e: &ast::Expr) -> SqlExpr {
    SqlExpr { kind: lower_expr_kind(e), text: e.to_string() }
}

/// Reads the kind of an expression into the model (part of `parse_sql`'s conversion).
#[verifier::external_body]
fn lower_expr_kind(e: &ast::Expr) -> SqlExprKind {
    match e {
        ast::Expr::Identifier(i) => SqlExprKind::Identifier(i.value.clone()),
        ast::Expr::CompoundIdentifier(ps) => SqlExprKind::CompoundIdentifier(ps.iter().map(|p| p.value.clone()).collect()),
        ast::Expr::Function(f) => SqlExprKind::Function { name: name_parts(&f.name), args: lower_args(&f.args), has_over: f.over.is_some() },
        ast::Expr::BinaryOp { left, right, .. } => SqlExprKind::BinaryOp(Box::new(lower_expr(left)), Box::new(lower_expr(right))),
        _ => lower_expr_kind_wrapped(e),
    }
}

/// Reads the kinds of expression that wrap one other into the model (part of
/// `parse_sql`'s conversion).
#[verifier::external_body]
fn lower_expr_kind_wrapped(e: &ast::Expr) -> SqlExprKind {
    match e {
        ast::Expr::UnaryOp { expr, .. } => SqlExprKind::UnaryOp(Box::new(lower_expr(expr))),
        ast::Expr::Cast { expr, .. } => SqlExprKind::Cast(Box::new(lower_expr(expr))),
        ast::Expr::Nested(x) => SqlExprKind::Nested(Box::new(lower_expr(x))),
        _ => lower_expr_kind_rest(e),
    }
}

/// Reads the remaining kinds of expression into the model (part of `parse_sql`'s
/// conversion).
#[verifier::external_body]
fn lower_expr_kind_rest(e: &ast::Expr) -> SqlExprKind {
    match e {
        ast::Expr::Case { operand, conditions, else_result, .. } => SqlExprKind::Case {
            operand: operand.as_ref().map(|x| Box::new(lower_expr(x))),
            conditions: conditions.iter().map(|c| (lower_expr(&c.condition), lower_expr(&c.result))).collect(),
            else_result: else_result.as_ref().map(|x| Box::new(lower_expr(x))),
        },
        ast::Expr::Value(_) => SqlExprKind::Value,
        ast::Expr::Subquery(_) => SqlExprKind::Subquery,
        _ => SqlExprKind::Other,
    }
}

/// Reads a function's argument list into the model (part of `parse_sql`'s conversion).
#[verifier::external_body]
fn lower_args(a: &ast::FunctionArguments) -> Vec<SqlFunctionArg> {
    match a {
        ast::FunctionArguments::List(list) => list.args.iter().map(lower_arg).collect(),
        _ => Vec::new(),
    }
}

/// Reads a function argument into the model (part of `parse_sql`'s conversion).
#[verifier::external_body]
fn lower_arg(a: &ast::FunctionArg) -> SqlFunctionArg {
    let arg = match a {
        ast::FunctionArg::Unnamed(x) | ast::FunctionArg::Named { arg: x, .. } | ast::FunctionArg::ExprNamed { arg: x, .. } => x,
    };
    match arg {
        ast::FunctionArgExpr::Expr(e) => SqlFunctionArg::Expr(lower_expr(e)),
        ast::FunctionArgExpr::QualifiedWildcard(n) => SqlFunctionArg::QualifiedWildcard(name_parts(n)),
        _ => SqlFunctionArg::Wildcard,
    }
}

} // verus!
