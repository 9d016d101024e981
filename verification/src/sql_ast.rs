use vstd::prelude::*;

verus! {

/// The parts of a SQL statement that lineage extraction reads. Names are kept as
/// their dotted parts, each as the SQL parser renders it.
#[derive(Debug)]
#[allow(inconsistent_fields)]
pub enum SqlStatement {
    /// `CREATE TABLE name (columns) [AS query]`.
    CreateTable { name: Vec<String>, columns: Vec<String>, query: Option<Box<SqlQuery>> },
    /// `CREATE VIEW name AS query`.
    CreateView { name: Vec<String>, query: Box<SqlQuery> },
    /// `INSERT INTO table query`; `table` is absent when the target is not a plain name.
    Insert { table: Option<Vec<String>>, source: Option<Box<SqlQuery>> },
    /// Any other statement.
    Other,
}

/// A query: its common table expressions (`WITH`), in order, and its body.
#[derive(Debug)]
pub struct SqlQuery {
    pub ctes: Vec<SqlCte>,
    pub body: Box<SqlSetExpr>,
}

/// A common table expression: its name and its query.
#[derive(Debug)]
pub struct SqlCte {
    pub name: String,
    pub query: Box<SqlQuery>,
}

/// The body of a query.
#[derive(Debug)]
pub enum SqlSetExpr {
    Select(Box<SqlSelect>),
    /// A parenthesised query.
    Query(Box<SqlQuery>),
    /// `UNION`, `INTERSECT`, `EXCEPT`: the two operands.
    SetOperation(Box<SqlSetExpr>, Box<SqlSetExpr>),
    Other,
}

/// A `SELECT`: its select list and its `FROM` items.
#[derive(Debug)]
pub struct SqlSelect {
    pub projection: Vec<SqlSelectItem>,
    pub from: Vec<SqlTableWithJoins>,
}

/// A `FROM` item and the tables joined to it.
#[derive(Debug)]
pub struct SqlTableWithJoins {
    pub relation: SqlTableFactor,
    pub joins: Vec<SqlTableFactor>,
}

/// A table reference.
#[derive(Debug)]
pub enum SqlTableFactor {
    /// A named table and its alias.
    Table { name: Vec<String>, alias: Option<String> },
    /// A subquery in `FROM`.
    Derived(Box<SqlQuery>),
    /// A parenthesised join.
    NestedJoin(Box<SqlTableWithJoins>),
    Other,
}

/// An item of a select list.
#[derive(Debug)]
pub enum SqlSelectItem {
    /// An expression without alias.
    Unnamed(SqlExpr),
    /// An expression and its alias.
    WithAlias(SqlExpr, String),
    /// `*`.
    Wildcard,
    /// `prefix.*`, with the prefix as rendered.
    QualifiedWildcard(String),
    /// An item of a form the extraction does not read (an expression with several
    /// aliases).
    Other,
}

/// An expression: what it is, and its SQL text as rendered.
#[derive(Debug)]
pub struct SqlExpr {
    pub kind: SqlExprKind,
    pub text: String,
}

/// The kinds of expression lineage extraction tells apart.
#[derive(Debug)]
pub enum SqlExprKind {
    Identifier(String),
    CompoundIdentifier(Vec<String>),
    /// A function call: its dotted name, its arguments, and whether it has `OVER`.
    Function { name: Vec<String>, args: Vec<SqlFunctionArg>, has_over: bool },
    /// `CASE [operand] WHEN c THEN r ... [ELSE e] END`.
    Case {
        operand: Option<Box<SqlExpr>>,
        conditions: Vec<(SqlExpr, SqlExpr)>,
        else_result: Option<Box<SqlExpr>>,
    },
    BinaryOp(Box<SqlExpr>, Box<SqlExpr>),
    UnaryOp(Box<SqlExpr>),
    Cast(Box<SqlExpr>),
    Nested(Box<SqlExpr>),
    /// A literal.
    Value,
    /// A scalar subquery.
    Subquery,
    Other,
}

/// A function argument.
#[derive(Debug)]
pub enum SqlFunctionArg {
    Expr(SqlExpr),
    /// `prefix.*`, with the prefix's dotted parts.
    QualifiedWildcard(Vec<String>),
    /// `*`.
    Wildcard,
}

} // verus!
