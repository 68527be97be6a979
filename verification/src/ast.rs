use vstd::prelude::*;

use crate::table::{ColumnDef, ColumnDefV};
use crate::value::{all_wf, Value, ValueV};

verus! {

/// The top-level SQL statements the engine accepts.
#[derive(Debug, PartialEq)]
pub enum Statement {
    /// Create a new table.
    CreateTable(CreateTable),
    /// Insert one row into an existing table.
    InsertInto(InsertInto),
    /// Query rows of a table.
    Select(Select),
    /// Overwrite values of matching rows.
    Update(Update),
    /// Remove matching rows.
    Delete(Delete),
}

/// A `CREATE TABLE` statement.
#[derive(Debug, PartialEq)]
pub struct CreateTable {
    /// The new table's name.
    pub name: String,
    /// Its column definitions, in order.
    pub columns: Vec<ColumnDef>,
}

/// An `INSERT INTO` statement.
#[derive(Debug, PartialEq)]
pub struct InsertInto {
    /// The target table's name.
    pub table: String,
    /// The named columns, if a column list was written.
    pub columns: Option<Vec<String>>,
    /// The literal values to store.
    pub values: Vec<Value>,
}

/// The projection of a `SELECT` statement.
#[derive(Debug, PartialEq)]
pub enum ColumnsSelect {
    /// The `*` wildcard: all schema columns.
    Star,
    /// An explicit list of column names.
    ColumnsNames(Vec<String>),
}

/// A `SELECT` statement.
#[derive(Debug, PartialEq)]
pub struct Select {
    /// Which columns the result carries.
    pub columns: ColumnsSelect,
    /// The queried table's name.
    pub table: String,
    /// The row filter, if a `WHERE` clause was written.
    pub where_clause: Option<Expr>,
    /// The sort keys, if an `ORDER BY` clause was written.
    pub order_by: Option<Vec<OrderByClause>>,
    /// The largest number of rows to return, if `LIMIT` was written.
    pub limit: Option<usize>,
}

/// An `UPDATE` statement.
#[derive(Debug, PartialEq)]
pub struct Update {
    /// The target table's name.
    pub table: String,
    /// The `column = literal` assignments, in order.
    pub assignments: Vec<(String, Value)>,
    /// The row filter; `UPDATE` always carries one.
    pub where_clause: Expr,
}

/// A `DELETE` statement.
#[derive(Debug, PartialEq)]
pub struct Delete {
    /// The target table's name.
    pub table: String,
    /// The row filter; `DELETE` always carries one.
    pub where_clause: Expr,
}

/// The comparison operators of a `WHERE` leaf.
#[derive(Debug, Clone, Copy, PartialEq, Eq, Structural)]
pub enum ComparisonOp {
    /// Greater than.
    Gt,
    /// Lower than.
    Lt,
    /// Equal.
    Eq,
}

/// A sort direction of an `ORDER BY` key.
#[derive(Debug, Clone, Copy, PartialEq, Eq, Structural)]
pub enum SortDirection {
    Asc,
    Desc,
}

/// One `ORDER BY` key: a column and a direction.
#[derive(Debug, PartialEq)]
pub struct OrderByClause {
    /// The column sorted by.
    pub column: String,
    /// Ascending unless `DESC` was written.
    pub direction: SortDirection,
}

/// A `WHERE` expression: a tree of `AND`/`OR` nodes over column-to-literal
/// comparisons.
#[derive(Debug, PartialEq)]
pub enum Expr {
    /// A leaf: one column compared against one literal.
    Comparison {
        /// The compared column's name.
        column: String,
        /// The operator.
        op: ComparisonOp,
        /// The literal compared against.
        value: Value,
    },
    /// Both sides must hold.
    And { left: Box<Expr>, right: Box<Expr> },
    /// At least one side must hold.
    Or { left: Box<Expr>, right: Box<Expr> },
}

// ---------------------------------------------------------------------
// Models.
// ---------------------------------------------------------------------

/// The model of an [`Expr`].
pub enum ExprV {
    Comparison { column: Seq<char>, op: ComparisonOp, value: ValueV },
    And { left: Box<ExprV>, right: Box<ExprV> },
    Or { left: Box<ExprV>, right: Box<ExprV> },
}

impl View for Expr {
    type V = ExprV;

    open spec fn view(&self) -> ExprV
        decreases self,
    {
        match self {
            Expr::Comparison { column, op, value } => ExprV::Comparison {
                column: column@,
                op: *op,
                value: value@,
            },
            Expr::And { left, right } => ExprV::And {
                left: Box::new((**left)@),
                right: Box::new((**right)@),
            },
            Expr::Or { left, right } => ExprV::Or {
                left: Box::new((**left)@),
                right: Box::new((**right)@),
            },
        }
    }
}

/// The views of a sequence of strings.
pub open spec fn string_views(s: Seq<String>) -> Seq<Seq<char>> {
    s.map_values(|x: String| x@)
}

/// The views of a sequence of column definitions.
pub open spec fn def_views(s: Seq<ColumnDef>) -> Seq<ColumnDefV> {
    s.map_values(|d: ColumnDef| d@)
}

/// The model of a [`CreateTable`].
pub struct CreateTableV {
    pub name: Seq<char>,
    pub columns: Seq<ColumnDefV>,
}

impl View for CreateTable {
    type V = CreateTableV;

    open spec fn view(&self) -> CreateTableV {
        CreateTableV { name: self.name@, columns: def_views(self.columns@) }
    }
}

/// The model of an [`InsertInto`].
pub struct InsertIntoV {
    pub table: Seq<char>,
    pub columns: Option<Seq<Seq<char>>>,
    pub values: Seq<ValueV>,
}

impl View for InsertInto {
    type V = InsertIntoV;

    open spec fn view(&self) -> InsertIntoV {
        InsertIntoV {
            table: self.table@,
            columns: match &self.columns {
                Some(cols) => Some(string_views(cols@)),
                None => None,
            },
            values: crate::value::views_of(self.values@),
        }
    }
}

/// The model of a [`ColumnsSelect`].
pub enum ColumnsSelectV {
    Star,
    ColumnsNames(Seq<Seq<char>>),
}

impl View for ColumnsSelect {
    type V = ColumnsSelectV;

    open spec fn view(&self) -> ColumnsSelectV {
        match self {
            ColumnsSelect::Star => ColumnsSelectV::Star,
            ColumnsSelect::ColumnsNames(cols) => ColumnsSelectV::ColumnsNames(string_views(cols@)),
        }
    }
}

/// The model of an [`OrderByClause`].
pub struct OrderByV {
    pub column: Seq<char>,
    pub direction: SortDirection,
}

impl View for OrderByClause {
    type V = OrderByV;

    open spec fn view(&self) -> OrderByV {
        OrderByV { column: self.column@, direction: self.direction }
    }
}

/// The views of a sequence of `ORDER BY` keys.
pub open spec fn order_by_views(s: Seq<OrderByClause>) -> Seq<OrderByV> {
    s.map_values(|o: OrderByClause| o@)
}

/// The model of a [`Select`].
pub struct SelectV {
    pub columns: ColumnsSelectV,
    pub table: Seq<char>,
    pub where_clause: Option<ExprV>,
    pub order_by: Option<Seq<OrderByV>>,
    pub limit: Option<usize>,
}

impl View for Select {
    type V = SelectV;

    open spec fn view(&self) -> SelectV {
        SelectV {
            columns: self.columns@,
            table: self.table@,
            where_clause: match &self.where_clause {
                Some(e) => Some(e@),
                None => None,
            },
            order_by: match &self.order_by {
                Some(keys) => Some(order_by_views(keys@)),
                None => None,
            },
            limit: self.limit,
        }
    }
}

/// The views of a sequence of assignments.
pub open spec fn assignment_views(s: Seq<(String, Value)>) -> Seq<(Seq<char>, ValueV)> {
    s.map_values(|a: (String, Value)| (a.0@, a.1@))
}

/// The model of an [`Update`].
pub struct UpdateV {
    pub table: Seq<char>,
    pub assignments: Seq<(Seq<char>, ValueV)>,
    pub where_clause: ExprV,
}

impl View for Update {
    type V = UpdateV;

    open spec fn view(&self) -> UpdateV {
        UpdateV {
            table: self.table@,
            assignments: assignment_views(self.assignments@),
            where_clause: self.where_clause@,
        }
    }
}

/// The model of a [`Delete`].
pub struct DeleteV {
    pub table: Seq<char>,
    pub where_clause: ExprV,
}

impl View for Delete {
    type V = DeleteV;

    open spec fn view(&self) -> DeleteV {
        DeleteV { table: self.table@, where_clause: self.where_clause@ }
    }
}

/// Every decimal literal inside the expression is comparable.
pub open spec fn expr_wf(e: ExprV) -> bool
    decreases e,
{
    match e {
        ExprV::Comparison { column: _, op: _, value } => value.wf(),
        ExprV::And { left, right } => expr_wf(*left) && expr_wf(*right),
        ExprV::Or { left, right } => expr_wf(*left) && expr_wf(*right),
    }
}

/// Every decimal literal inside the statement is comparable.
pub open spec fn stmt_wf(st: StatementV) -> bool {
    match st {
        StatementV::CreateTable(_) => true,
        StatementV::InsertInto(i) => all_wf(i.values),
        StatementV::Select(s) => match s.where_clause {
            Some(e) => expr_wf(e),
            None => true,
        },
        StatementV::Update(u) => expr_wf(u.where_clause) && forall|k: int|
            0 <= k < u.assignments.len() ==> (#[trigger] u.assignments[k]).1.wf(),
        StatementV::Delete(d) => expr_wf(d.where_clause),
    }
}

/// The model of a [`Statement`].
pub enum StatementV {
    CreateTable(CreateTableV),
    InsertInto(InsertIntoV),
    Select(SelectV),
    Update(UpdateV),
    Delete(DeleteV),
}

impl View for Statement {
    type V = StatementV;

    open spec fn view(&self) -> StatementV {
        match self {
            Statement::CreateTable(s) => StatementV::CreateTable(s@),
            Statement::InsertInto(s) => StatementV::InsertInto(s@),
            Statement::Select(s) => StatementV::Select(s@),
            Statement::Update(s) => StatementV::Update(s@),
            Statement::Delete(s) => StatementV::Delete(s@),
        }
    }
}

} // verus!
