use vstd::prelude::*;
use vstd::string::StringExecFns;
use crate::text::{copy_str, lowercase, to_lowercase};

verus! {

/// Unique identifier of a node in the lineage graph (for example `raw.payments`).
#[derive(Debug, Hash)]
pub struct NodeId(pub String);

impl View for NodeId {
    type V = Seq<char>;

    open spec fn view(&self) -> Seq<char> {
        self.0@
    }
}

impl Clone for NodeId {
    fn clone(&self) -> (r: Self)
        ensures
            r == *self,
    {
        NodeId(self.0.clone())
    }
}

impl PartialEq for NodeId {
    fn eq(&self, other: &Self) -> (r: bool) {
        self.0 == other.0
    }
}

impl Eq for NodeId {}

impl vstd::std_specs::cmp::PartialEqSpecImpl for NodeId {
    open spec fn obeys_eq_spec() -> bool {
        true
    }

    open spec fn eq_spec(&self, other: &NodeId) -> bool {
        self.0@ == other.0@
    }
}

impl NodeId {
    /// Builds an identifier from a name; identifiers are always lower case.
    pub fn from(s: &str) -> (r: NodeId)
        ensures
            r@ == lowercase(s@),
    {
        NodeId(to_lowercase(s))
    }

    /// The text of the identifier, as it is displayed.
    pub fn to_string(&self) -> (r: String)
        ensures
            r@ == self@,
    {
        self.0.clone()
    }
}

/// The kind of data asset a node stands for.
#[derive(Debug, Clone, Copy, PartialEq, Eq, Structural)]
pub enum NodeKind {
    SqlTable,
    SqlView,
    DbtModel,
    DbtSource,
    PythonEtl,
}

/// The text under which a node kind is displayed.
pub open spec fn kind_label(k: NodeKind) -> Seq<char> {
    match k {
        NodeKind::SqlTable => "SQL Table"@,
        NodeKind::SqlView => "SQL View"@,
        NodeKind::DbtModel => "dbt Model"@,
        NodeKind::DbtSource => "dbt Source"@,
        NodeKind::PythonEtl => "Python ETL"@,
    }
}

/// The name of a node kind's variant, as stored in a snapshot.
pub open spec fn kind_name(k: NodeKind) -> Seq<char> {
    match k {
        NodeKind::SqlTable => "SqlTable"@,
        NodeKind::SqlView => "SqlView"@,
        NodeKind::DbtModel => "DbtModel"@,
        NodeKind::DbtSource => "DbtSource"@,
        NodeKind::PythonEtl => "PythonEtl"@,
    }
}

impl NodeKind {
    /// The text under which this kind is displayed (`SQL Table`, `dbt Model`, ...).
    pub fn label(&self) -> (r: &'static str)
        ensures
            r@ == kind_label(*self),
    {
        match self {
            NodeKind::SqlTable => "SQL Table",
            NodeKind::SqlView => "SQL View",
            NodeKind::DbtModel => "dbt Model",
            NodeKind::DbtSource => "dbt Source",
            NodeKind::PythonEtl => "Python ETL",
        }
    }

    /// The name of the variant (`SqlTable`, `DbtModel`, ...).
    pub fn name(&self) -> (r: &'static str)
        ensures
            r@ == kind_name(*self),
    {
        match self {
            NodeKind::SqlTable => "SqlTable",
            NodeKind::SqlView => "SqlView",
            NodeKind::DbtModel => "DbtModel",
            NodeKind::DbtSource => "DbtSource",
            NodeKind::PythonEtl => "PythonEtl",
        }
    }
}

/// A node of the lineage graph.
#[derive(Debug)]
pub struct Node {
    pub id: NodeId,
    pub kind: NodeKind,
    pub source_file: String,
    /// Known column names (best-effort, from SQL select lists).
    pub columns: Vec<String>,
}

/// Character sequences of a list of strings.
pub open spec fn strings_view(v: Seq<String>) -> Seq<Seq<char>> {
    v.map_values(|c: String| c@)
}

/// The abstract value of a [`Node`].
pub struct NodeView {
    pub id: Seq<char>,
    pub kind: NodeKind,
    pub source_file: Seq<char>,
    pub columns: Seq<Seq<char>>,
}

impl View for Node {
    type V = NodeView;

    open spec fn view(&self) -> NodeView {
        NodeView {
            id: self.id@,
            kind: self.kind,
            source_file: self.source_file@,
            columns: strings_view(self.columns@),
        }
    }
}

impl Clone for Node {
    fn clone(&self) -> (r: Self)
        ensures
            r@ == self@,
    {
        Node {
            id: self.id.clone(),
            kind: self.kind,
            source_file: self.source_file.clone(),
            columns: self.columns.clone(),
        }
    }
}

/// The relation between two nodes.
#[derive(Debug, Clone, Copy, PartialEq, Eq, Structural)]
pub enum EdgeRelation {
    SelectFrom,
    JoinOn,
    InsertInto,
    CreateTableAs,
    CteReference,
    DbtRef,
    DbtSource,
    PythonReadWrite,
}

/// The text under which a relation is displayed.
pub open spec fn relation_label(r: EdgeRelation) -> Seq<char> {
    match r {
        EdgeRelation::SelectFrom => "SELECT FROM"@,
        EdgeRelation::JoinOn => "JOIN"@,
        EdgeRelation::InsertInto => "INSERT INTO"@,
        EdgeRelation::CreateTableAs => "CREATE TABLE AS"@,
        EdgeRelation::CteReference => "CTE"@,
        EdgeRelation::DbtRef => "dbt ref()"@,
        EdgeRelation::DbtSource => "dbt source()"@,
        EdgeRelation::PythonReadWrite => "Python read/write"@,
    }
}

/// The name of a relation's variant, as stored in a snapshot.
pub open spec fn relation_name(r: EdgeRelation) -> Seq<char> {
    match r {
        EdgeRelation::SelectFrom => "SelectFrom"@,
        EdgeRelation::JoinOn => "JoinOn"@,
        EdgeRelation::InsertInto => "InsertInto"@,
        EdgeRelation::CreateTableAs => "CreateTableAs"@,
        EdgeRelation::CteReference => "CteReference"@,
        EdgeRelation::DbtRef => "DbtRef"@,
        EdgeRelation::DbtSource => "DbtSource"@,
        EdgeRelation::PythonReadWrite => "PythonReadWrite"@,
    }
}

impl EdgeRelation {
    /// The text under which this relation is displayed (`JOIN`, `dbt ref()`, ...).
    pub fn label(&self) -> (r: &'static str)
        ensures
            r@ == relation_label(*self),
    {
        match self {
            EdgeRelation::SelectFrom => "SELECT FROM",
            EdgeRelation::JoinOn => "JOIN",
            EdgeRelation::InsertInto => "INSERT INTO",
            EdgeRelation::CreateTableAs => "CREATE TABLE AS",
            EdgeRelation::CteReference => "CTE",
            EdgeRelation::DbtRef => "dbt ref()",
            EdgeRelation::DbtSource => "dbt source()",
            EdgeRelation::PythonReadWrite => "Python read/write",
        }
    }

    /// The name of the variant (`SelectFrom`, `DbtRef`, ...).
    pub fn name(&self) -> (r: &'static str)
        ensures
            r@ == relation_name(*self),
    {
        match self {
            EdgeRelation::SelectFrom => "SelectFrom",
            EdgeRelation::JoinOn => "JoinOn",
            EdgeRelation::InsertInto => "InsertInto",
            EdgeRelation::CreateTableAs => "CreateTableAs",
            EdgeRelation::CteReference => "CteReference",
            EdgeRelation::DbtRef => "DbtRef",
            EdgeRelation::DbtSource => "DbtSource",
            EdgeRelation::PythonReadWrite => "PythonReadWrite",
        }
    }
}

/// A directed edge of the lineage graph: `source` (upstream) to `target` (downstream).
#[derive(Debug)]
pub struct LineageEdge {
    pub source: NodeId,
    pub target: NodeId,
    pub relation: EdgeRelation,
    pub source_file: String,
    pub line_number: Option<usize>,
}

/// The abstract value of a [`LineageEdge`].
pub struct EdgeView {
    pub source: Seq<char>,
    pub target: Seq<char>,
    pub relation: EdgeRelation,
    pub source_file: Seq<char>,
    pub line_number: Option<usize>,
}

impl View for LineageEdge {
    type V = EdgeView;

    open spec fn view(&self) -> EdgeView {
        EdgeView {
            source: self.source@,
            target: self.target@,
            relation: self.relation,
            source_file: self.source_file@,
            line_number: self.line_number,
        }
    }
}

impl Clone for LineageEdge {
    fn clone(&self) -> (r: Self)
        ensures
            r@ == self@,
    {
        LineageEdge {
            source: self.source.clone(),
            target: self.target.clone(),
            relation: self.relation,
            source_file: self.source_file.clone(),
            line_number: self.line_number,
        }
    }
}

/// How an output column is produced from its upstream columns.
#[derive(Debug)]
pub enum TransformKind {
    /// Passed through or renamed (`id AS order_id`).
    Direct,
    /// An aggregate function (`SUM(amount)`), with the function's name.
    Aggregation(String),
    /// An arithmetic expression or a `CASE`.
    Expression,
    /// A window function (`LAG(x, 12) OVER (...)`), with the function's name.
    Window(String),
    /// Produced by a dbt macro or Jinja; not traceable.
    Macro,
    /// A constant, depending on no upstream column.
    Constant,
    /// Not determined.
    Unknown,
}

/// The abstract value of a [`TransformKind`].
pub enum TransformView {
    Direct,
    Aggregation(Seq<char>),
    Expression,
    Window(Seq<char>),
    Macro,
    Constant,
    Unknown,
}

impl View for TransformKind {
    type V = TransformView;

    open spec fn view(&self) -> TransformView {
        match self {
            TransformKind::Direct => TransformView::Direct,
            TransformKind::Aggregation(f) => TransformView::Aggregation(f@),
            TransformKind::Expression => TransformView::Expression,
            TransformKind::Window(f) => TransformView::Window(f@),
            TransformKind::Macro => TransformView::Macro,
            TransformKind::Constant => TransformView::Constant,
            TransformKind::Unknown => TransformView::Unknown,
        }
    }
}

/// The text under which a transform is displayed.
pub open spec fn transform_label(t: TransformView) -> Seq<char> {
    match t {
        TransformView::Direct => "direct"@,
        TransformView::Aggregation(f) => f + "()"@,
        TransformView::Expression => "expression"@,
        TransformView::Window(f) => f + "() OVER"@,
        TransformView::Macro => "macro"@,
        TransformView::Constant => "constant"@,
        TransformView::Unknown => "unknown"@,
    }
}

impl TransformKind {
    /// The text under which this transform is displayed (`direct`, `SUM()`,
    /// `LAG() OVER`, ...).
    pub fn to_string(&self) -> (r: String)
        ensures
            r@ == transform_label(self@),
    {
        match self {
            TransformKind::Direct => copy_str("direct"),
            TransformKind::Aggregation(f) => {
                let mut r = copy_str(f.as_str());
                r.append("()");
                r
            },
            TransformKind::Expression => copy_str("expression"),
            TransformKind::Window(f) => {
                let mut r = copy_str(f.as_str());
                r.append("() OVER");
                r
            },
            TransformKind::Macro => copy_str("macro"),
            TransformKind::Constant => copy_str("constant"),
            TransformKind::Unknown => copy_str("unknown"),
        }
    }
}

impl Clone for TransformKind {
    fn clone(&self) -> (r: Self)
        ensures
            r@ == self@,
    {
        match self {
            TransformKind::Direct => TransformKind::Direct,
            TransformKind::Aggregation(f) => TransformKind::Aggregation(f.clone()),
            TransformKind::Expression => TransformKind::Expression,
            TransformKind::Window(f) => TransformKind::Window(f.clone()),
            TransformKind::Macro => TransformKind::Macro,
            TransformKind::Constant => TransformKind::Constant,
            TransformKind::Unknown => TransformKind::Unknown,
        }
    }
}

impl PartialEq for TransformKind {
    fn eq(&self, other: &Self) -> (r: bool) {
        match (self, other) {
            (TransformKind::Direct, TransformKind::Direct) => true,
            (TransformKind::Aggregation(a), TransformKind::Aggregation(b)) => a.eq(b),
            (TransformKind::Expression, TransformKind::Expression) => true,
            (TransformKind::Window(a), TransformKind::Window(b)) => a.eq(b),
            (TransformKind::Macro, TransformKind::Macro) => true,
            (TransformKind::Constant, TransformKind::Constant) => true,
            (TransformKind::Unknown, TransformKind::Unknown) => true,
            _ => false,
        }
    }
}

impl Eq for TransformKind {}

impl vstd::std_specs::cmp::PartialEqSpecImpl for TransformKind {
    open spec fn obeys_eq_spec() -> bool {
        true
    }

    open spec fn eq_spec(&self, other: &TransformKind) -> bool {
        self@ == other@
    }
}

/// An upstream column: `table` (an alias or a full table name, where known) and `column`.
#[derive(Debug)]
pub struct SourceColumn {
    pub table: Option<String>,
    pub column: String,
}

/// The abstract value of a [`SourceColumn`]: the table, where known, and the column.
pub struct SourceView {
    pub table: Option<Seq<char>>,
    pub column: Seq<char>,
}

impl View for SourceColumn {
    type V = SourceView;

    open spec fn view(&self) -> SourceView {
        SourceView {
            table: match self.table {
                Some(t) => Some(t@),
                None => None,
            },
            column: self.column@,
        }
    }
}

/// The abstract values of a list of upstream columns.
pub open spec fn sources_view(v: Seq<SourceColumn>) -> Seq<SourceView> {
    v.map_values(|s: SourceColumn| s@)
}

impl Clone for SourceColumn {
    fn clone(&self) -> (r: Self)
        ensures
            r@ == self@,
    {
        SourceColumn {
            table: match &self.table {
                Some(t) => Some(t.clone()),
                None => None,
            },
            column: self.column.clone(),
        }
    }
}

/// Column-level lineage: the upstream columns an output column is built from, and how.
#[derive(Debug)]
pub struct ColumnLineage {
    /// The output table.
    pub target_table: String,
    /// The output column.
    pub target_column: String,
    /// The upstream columns.
    pub source_columns: Vec<SourceColumn>,
    /// How the column is produced.
    pub transform: TransformKind,
    /// The SQL text of the column's expression (best-effort).
    pub expression: String,
}

/// The abstract value of a [`ColumnLineage`].
pub struct LineageView {
    pub target_table: Seq<char>,
    pub target_column: Seq<char>,
    pub source_columns: Seq<SourceView>,
    pub transform: TransformView,
    pub expression: Seq<char>,
}

impl View for ColumnLineage {
    type V = LineageView;

    open spec fn view(&self) -> LineageView {
        LineageView {
            target_table: self.target_table@,
            target_column: self.target_column@,
            source_columns: sources_view(self.source_columns@),
            transform: self.transform@,
            expression: self.expression@,
        }
    }
}

/// The abstract values of a list of column lineages.
pub open spec fn lineages_view(v: Seq<ColumnLineage>) -> Seq<LineageView> {
    v.map_values(|l: ColumnLineage| l@)
}

impl Clone for ColumnLineage {
    fn clone(&self) -> (r: Self)
        ensures
            r@ == self@,
    {
        let mut sources: Vec<SourceColumn> = Vec::new();
        let mut i: usize = 0;
        while i < self.source_columns.len()
            invariant
                i <= self.source_columns.len(),
                sources@.len() == i,
                forall|k: int| 0 <= k < i ==> sources@[k]@ == self.source_columns@[k]@,
            decreases self.source_columns.len() - i,
        {
            sources.push(self.source_columns[i].clone());
            i = i + 1;
        }
        proof {
            assert(sources_view(sources@) =~= sources_view(self.source_columns@));
        }
        ColumnLineage {
            target_table: self.target_table.clone(),
            target_column: self.target_column.clone(),
            source_columns: sources,
            transform: self.transform.clone(),
            expression: self.expression.clone(),
        }
    }
}

} // verus!
