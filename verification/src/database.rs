use vstd::prelude::*;

use core::cmp::Ordering;

use crate::ast::{expr_wf, ColumnsSelect, ColumnsSelectV, ComparisonOp, Delete, DeleteV, Expr,
    ExprV, InsertInto, InsertIntoV, OrderByV, Select, SelectV, SortDirection, Statement,
    StatementV, Update, UpdateV};
use crate::parser::{spec_parse, Parser};
use crate::table::{col_index, row_matches_schema, ColumnDefV, Schema, Table, TableV};
use crate::tokenizer::{spec_tokenize, token_views, Tokenizer};
use crate::value::{all_wf, str_eq, value_cmp, value_cmp_spec, views_of, Value, ValueV};
use vstd::string::StringExecFns;

verus! {

/// The result of a successful `SELECT` query.
#[derive(Debug)]
pub struct QueryResult {
    /// The names of the columns of the result set.
    pub columns: Vec<String>,
    /// The rows, each a vector of values in the order of `columns`.
    pub rows: Vec<Vec<Value>>,
}

/// The model of a [`QueryResult`].
pub struct QueryResultV {
    pub columns: Seq<Seq<char>>,
    pub rows: Seq<Seq<ValueV>>,
}

impl View for QueryResult {
    type V = QueryResultV;

    open spec fn view(&self) -> QueryResultV {
        QueryResultV {
            columns: crate::ast::string_views(self.columns@),
            rows: self.rows@.map_values(|row: Vec<Value>| crate::value::views_of(row@)),
        }
    }
}

/// The views of the catalog's tables.
pub open spec fn table_views(s: Seq<Table>) -> Seq<TableV> {
    s.map_values(|t: Table| t@)
}

/// The tables as a map from name to table, later entries shadowing
/// earlier ones (they never do: names are unique).
pub open spec fn map_of(s: Seq<TableV>) -> Map<Seq<char>, TableV>
    decreases s.len(),
{
    if s.len() == 0 {
        Map::empty()
    } else {
        map_of(s.drop_last()).insert(s.last().name, s.last())
    }
}

/// Index of the first table carrying `name`, from position `i` on; `-1`
/// when no table does.
pub open spec fn table_index_from(s: Seq<TableV>, name: Seq<char>, i: nat) -> int
    decreases s.len() - i,
{
    if i >= s.len() {
        -1
    } else if s[i as int].name == name {
        i as int
    } else {
        table_index_from(s, name, i + 1)
    }
}

/// Index of the first table carrying `name`, `-1` when absent.
pub open spec fn table_index(s: Seq<TableV>, name: Seq<char>) -> int {
    table_index_from(s, name, 0)
}

/// Pairwise distinct table names.
pub open spec fn distinct_names(s: Seq<TableV>) -> bool {
    forall|i: int, j: int| 0 <= i < j < s.len() ==> s[i].name != s[j].name
}

pub proof fn lemma_map_of_contains(s: Seq<TableV>, n: Seq<char>)
    ensures
        map_of(s).contains_key(n) <==> exists|i: int| 0 <= i < s.len() && s[i].name == n,
    decreases s.len(),
{
    if s.len() > 0 {
        lemma_map_of_contains(s.drop_last(), n);
        if s.last().name == n {
        } else {
            if map_of(s).contains_key(n) {
                let i = choose|i: int| 0 <= i < s.drop_last().len() && s.drop_last()[i].name == n;
                assert(s[i].name == n);
            }
            if exists|i: int| 0 <= i < s.len() && s[i].name == n {
                let i = choose|i: int| 0 <= i < s.len() && s[i].name == n;
                assert(s.drop_last()[i].name == n);
            }
        }
    }
}

pub proof fn lemma_map_of_index(s: Seq<TableV>, i: int)
    requires
        distinct_names(s),
        0 <= i < s.len(),
    ensures
        map_of(s).contains_key(s[i].name),
        map_of(s)[s[i].name] == s[i],
    decreases s.len(),
{
    if i == s.len() - 1 {
    } else {
        assert(distinct_names(s.drop_last()));
        lemma_map_of_index(s.drop_last(), i);
        assert(s[i].name != s.last().name);
    }
}

pub proof fn lemma_map_of_push(s: Seq<TableV>, t: TableV)
    ensures
        map_of(s.push(t)) == map_of(s).insert(t.name, t),
{
    assert(s.push(t).drop_last() =~= s);
}

pub proof fn lemma_map_of_update(s: Seq<TableV>, i: int, t: TableV)
    requires
        distinct_names(s),
        0 <= i < s.len(),
        t.name == s[i].name,
    ensures
        map_of(s.update(i, t)) == map_of(s).insert(t.name, t),
    decreases s.len(),
{
    if i == s.len() - 1 {
        assert(s.update(i, t).drop_last() =~= s.drop_last());
        assert(s.update(i, t).last() == t);
        assert(map_of(s.drop_last()).insert(s.last().name, s.last()).insert(t.name, t)
            =~= map_of(s.drop_last()).insert(t.name, t));
    } else {
        assert(distinct_names(s.drop_last()));
        assert(s.update(i, t).drop_last() =~= s.drop_last().update(i, t));
        lemma_map_of_update(s.drop_last(), i, t);
        assert(s[i].name != s.last().name);
        assert(map_of(s.drop_last()).insert(t.name, t).insert(s.last().name, s.last())
            =~= map_of(s.drop_last()).insert(s.last().name, s.last()).insert(t.name, t));
        assert(s.update(i, t).last() == s.last());
    }
}

pub proof fn lemma_map_of_remove(s: Seq<TableV>, i: int)
    requires
        distinct_names(s),
        0 <= i < s.len(),
    ensures
        map_of(s.remove(i)) == map_of(s).remove(s[i].name),
    decreases s.len(),
{
    if i == s.len() - 1 {
        assert(s.remove(i) =~= s.drop_last());
        lemma_map_of_contains(s.drop_last(), s.last().name);
        assert(forall|j: int|
            0 <= j < s.drop_last().len() ==> (#[trigger] s.drop_last()[j]).name
                != s.last().name);
        assert(map_of(s.drop_last()).insert(s.last().name, s.last()).remove(s.last().name)
            =~= map_of(s.drop_last()));
    } else {
        assert(distinct_names(s.drop_last()));
        assert(s.remove(i).drop_last() =~= s.drop_last().remove(i));
        assert(s.remove(i).last() == s.last());
        lemma_map_of_remove(s.drop_last(), i);
        assert(s[i].name != s.last().name);
        assert(map_of(s.drop_last()).remove(s[i].name).insert(s.last().name, s.last())
            =~= map_of(s.drop_last()).insert(s.last().name, s.last()).remove(s[i].name));
    }
}

/// The engine: a catalog of tables, driven by SQL text through
/// [`Database::execute`] and [`Database::query`].
pub struct Database {
    /// The tables, with pairwise distinct names.
    tables: Vec<Table>,
}

impl View for Database {
    type V = Map<Seq<char>, TableV>;

    closed spec fn view(&self) -> Map<Seq<char>, TableV> {
        map_of(table_views(self.tables@))
    }
}

impl Database {
    /// The catalog's tables, in storage order.
    pub closed spec fn tabs(self) -> Seq<TableV> {
        table_views(self.tables@)
    }

    /// Well-formedness: every table is internally consistent, carries the
    /// name it is filed under, and no two tables share a name.
    pub closed spec fn wf(self) -> bool {
        &&& forall|i: int| 0 <= i < self.tables@.len() ==> (#[trigger] self.tables@[i]).wf()
        &&& distinct_names(table_views(self.tables@))
    }

    /// Creates an empty database.
    pub fn new() -> (r: Database)
        ensures
            r.wf(),
            r@ == Map::<Seq<char>, TableV>::empty(),
    {
        let r = Database { tables: Vec::new() };
        proof {
            assert(table_views(r.tables@) =~= Seq::<TableV>::empty());
        }
        r
    }

    /// Position of the table carrying `name`, `None` when absent.
    fn find_table(&self, name: &str) -> (r: Option<usize>)
        requires
            self.wf(),
        ensures
            match r {
                Some(i) => {
                    &&& i < self.tabs().len()
                    &&& self.tabs()[i as int].name == name@
                    &&& i as int == table_index(self.tabs(), name@)
                    &&& self@.contains_key(name@)
                    &&& self@[name@] == self.tabs()[i as int]
                },
                None => !self@.contains_key(name@),
            },
    {
        let mut i: usize = 0;
        while i < self.tables.len()
            invariant
                self.wf(),
                i <= self.tables@.len(),
                forall|j: int| 0 <= j < i as int ==> (#[trigger] self.tabs()[j]).name != name@,
                table_index(self.tabs(), name@) == table_index_from(self.tabs(), name@, i as nat),
            decreases self.tables@.len() - i,
        {
            if str_eq(self.tables[i].name.as_str(), name) {
                proof {
                    lemma_map_of_index(self.tabs(), i as int);
                }
                return Some(i);
            }
            i = i + 1;
        }
        proof {
            lemma_map_of_contains(self.tabs(), name@);
        }
        None
    }

    /// Creates a new, empty table under `name`.
    ///
    /// A second table under a name already taken is refused, and the
    /// database is left unchanged.
    pub fn create_table(&mut self, name: String, schema: Schema) -> (r: Result<(), String>)
        requires
            old(self).wf(),
        ensures
            final(self).wf(),
            match r {
                Ok(_) => {
                    &&& !old(self)@.contains_key(name@)
                    &&& final(self)@ == old(self)@.insert(
                        name@,
                        (TableV { name: name@, schema: schema@, rows: Seq::empty() }),
                    )
                },
                Err(_) => {
                    &&& old(self)@.contains_key(name@)
                    &&& *final(self) == *old(self)
                },
            },
    {
        if self.find_table(name.as_str()).is_some() {
            return Err(String::from_str("a table with this name already exists in the database"));
        }
        let ghost n = name@;
        let ghost old_tabs = self.tabs();
        let table = Table::new(name, schema);
        let ghost tv = table@;
        self.tables.push(table);
        proof {
            assert(self.tabs() =~= old_tabs.push(tv));
            lemma_map_of_push(old_tabs, tv);
            lemma_map_of_contains(old_tabs, n);
            assert(distinct_names(self.tabs()));
        }
        Ok(())
    }

    /// Removes the table carrying `name` from the database.
    pub fn drop_table(&mut self, name: &str) -> (r: Result<(), String>)
        requires
            old(self).wf(),
        ensures
            final(self).wf(),
            match r {
                Ok(_) => {
                    &&& old(self)@.contains_key(name@)
                    &&& final(self)@ == old(self)@.remove(name@)
                },
                Err(_) => {
                    &&& !old(self)@.contains_key(name@)
                    &&& *final(self) == *old(self)
                },
            },
    {
        match self.find_table(name) {
            Some(i) => {
                let ghost old_tabs = self.tabs();
                let _ = self.tables.remove(i);
                proof {
                    assert(self.tabs() =~= old_tabs.remove(i as int));
                    lemma_map_of_remove(old_tabs, i as int);
                    assert(distinct_names(self.tabs()));
                }
                Ok(())
            },
            None => Err(String::from_str("no table with this name exists in the database")),
        }
    }

    /// A reference to the table carrying `name`.
    pub fn get_table(&self, name: &str) -> (r: Option<&Table>)
        requires
            self.wf(),
        ensures
            match r {
                Some(t) => {
                    &&& self@.contains_key(name@)
                    &&& t@ == self@[name@]
                    &&& t.wf()
                },
                None => !self@.contains_key(name@),
            },
    {
        match self.find_table(name) {
            Some(i) => Some(&self.tables[i]),
            None => None,
        }
    }

    /// A mutable reference to the table carrying `name`.
    ///
    /// While the caller keeps the table consistent and does not rename it,
    /// the database stays well formed, with the new table state filed under
    /// the same name.
    pub fn get_table_mut(&mut self, name: &str) -> (r: Option<&mut Table>)
        requires
            old(self).wf(),
        ensures
            match r {
                Some(t) => {
                    &&& old(self)@.contains_key(name@)
                    &&& (*t)@ == old(self)@[name@]
                    &&& (*t).wf()
                    &&& 0 <= table_index(old(self).tabs(), name@) < old(self).tabs().len()
                    &&& final(self).tabs() =~= old(self).tabs().update(
                        table_index(old(self).tabs(), name@),
                        final(t)@,
                    )
                },
                None => {
                    &&& !old(self)@.contains_key(name@)
                    &&& *final(self) == *old(self)
                },
            },
    {
        match self.find_table(name) {
            Some(i) => Some(&mut self.tables[i]),
            None => None,
        }
    }

    /// The names of all tables, in no particular order and without
    /// duplicates.
    pub fn list_tables(&self) -> (r: Vec<String>)
        requires
            self.wf(),
        ensures
            forall|j: int| 0 <= j < r@.len() ==> self@.contains_key((#[trigger] r@[j])@),
            forall|n: Seq<char>| self@.contains_key(n) ==> exists|j: int|
                0 <= j < r@.len() && (#[trigger] r@[j])@ == n,
            forall|j: int, k: int| 0 <= j < k < r@.len() ==> r@[j]@ != r@[k]@,
    {
        let mut names: Vec<String> = Vec::new();
        let mut i: usize = 0;
        while i < self.tables.len()
            invariant
                self.wf(),
                i <= self.tables@.len(),
                names@.len() == i,
                forall|j: int| 0 <= j < i as int ==> (#[trigger] names@[j])@ == self.tabs()[
                    j
                ].name,
            decreases self.tables@.len() - i,
        {
            names.push(self.tables[i].name.clone());
            i = i + 1;
        }
        proof {
            assert forall|j: int| 0 <= j < names@.len() implies self@.contains_key(
                (#[trigger] names@[j])@,
            ) by {
                lemma_map_of_index(self.tabs(), j);
            }
            assert forall|n: Seq<char>| self@.contains_key(n) implies exists|j: int|
                0 <= j < names@.len() && (#[trigger] names@[j])@ == n by {
                lemma_map_of_contains(self.tabs(), n);
                let i0 = choose|i0: int| 0 <= i0 < self.tabs().len() && self.tabs()[i0].name == n;
                assert(names@[i0]@ == n);
            }
        }
        names
    }
}

// ---------------------------------------------------------------------
// Statement semantics, as mathematical functions of the database model.
// ---------------------------------------------------------------------

/// The database model: tables by name.
pub type DbV = Map<Seq<char>, TableV>;

/// Three-valued comparison of two values: any `NULL` operand makes the
/// comparison false; otherwise only same-type comparisons are defined, and
/// text and booleans support equality alone.
pub open spec fn spec_cmp_values(l: ValueV, op: ComparisonOp, r: ValueV) -> Result<bool, ()> {
    if l is Null || r is Null {
        Ok(false)
    } else {
        match (l, op, r) {
            (ValueV::Int(a), ComparisonOp::Gt, ValueV::Int(b)) => Ok(a > b),
            (ValueV::Int(a), ComparisonOp::Lt, ValueV::Int(b)) => Ok(a < b),
            (ValueV::Int(a), ComparisonOp::Eq, ValueV::Int(b)) => Ok(a == b),
            (ValueV::Float(a), ComparisonOp::Gt, ValueV::Float(b)) => Ok(b.spec_lt(a)),
            (ValueV::Float(a), ComparisonOp::Lt, ValueV::Float(b)) => Ok(a.spec_lt(b)),
            (ValueV::Float(a), ComparisonOp::Eq, ValueV::Float(b)) => Ok(a.spec_eq(b)),
            (ValueV::Text(a), ComparisonOp::Eq, ValueV::Text(b)) => Ok(a == b),
            (ValueV::Bool(a), ComparisonOp::Eq, ValueV::Bool(b)) => Ok(a == b),
            _ => Err(()),
        }
    }
}

/// Three-valued NULL comparison: whatever the operator and whatever the
/// other operand, a comparison against `NULL` evaluates to false on either
/// side - never to true, and never to an error.
pub proof fn lemma_null_comparison(op: ComparisonOp, x: ValueV)
    ensures
        spec_cmp_values(ValueV::Null, op, x) == Ok::<bool, ()>(false),
        spec_cmp_values(x, op, ValueV::Null) == Ok::<bool, ()>(false),
{
}

/// Evaluates a `WHERE` expression on one schema-ordered row: `AND` and
/// `OR` short-circuit on the left side, an unknown column or an
/// incomparable pair of types is an error.
pub open spec fn spec_eval_expr(e: ExprV, row: Seq<ValueV>, schema: Seq<ColumnDefV>) -> Result<
    bool,
    (),
>
    decreases e,
{
    match e {
        ExprV::Comparison { column, op, value } => {
            let ci = col_index(schema, column);
            if ci < 0 {
                Err(())
            } else {
                spec_cmp_values(row[ci], op, value)
            }
        },
        ExprV::Or { left, right } => match spec_eval_expr(*left, row, schema) {
            Err(_) => Err(()),
            Ok(b) => if b {
                Ok(true)
            } else {
                spec_eval_expr(*right, row, schema)
            },
        },
        ExprV::And { left, right } => match spec_eval_expr(*left, row, schema) {
            Err(_) => Err(()),
            Ok(b) => if !b {
                Ok(false)
            } else {
                spec_eval_expr(*right, row, schema)
            },
        },
    }
}

/// One bit per row of the table: whether the row passes the filter. A
/// missing filter passes every row; a failing evaluation fails the scan.
pub open spec fn spec_mask(t: TableV, w: Option<ExprV>, i: nat, acc: Seq<bool>) -> Result<
    Seq<bool>,
    (),
>
    decreases t.rows.len() - i,
{
    if i >= t.rows.len() {
        Ok(acc)
    } else {
        let keep = match w {
            None => Ok(true),
            Some(e) => spec_eval_expr(e, t.rows[i as int], t.schema),
        };
        match keep {
            Err(_) => Err(()),
            Ok(b) => spec_mask(t, w, i + 1, acc.push(b)),
        }
    }
}

/// The rows whose mask bit equals `keep`, in order, from position `i` on.
pub open spec fn select_rows(rows: Seq<Seq<ValueV>>, mask: Seq<bool>, keep: bool, i: nat) -> Seq<
    Seq<ValueV>,
>
    decreases rows.len() - i,
{
    if i >= rows.len() {
        Seq::empty()
    } else if mask[i as int] == keep {
        seq![rows[i as int]] + select_rows(rows, mask, keep, i + 1)
    } else {
        select_rows(rows, mask, keep, i + 1)
    }
}

/// Creating a table: refused when the name is taken.
pub open spec fn spec_create_table(db: DbV, name: Seq<char>, cols: Seq<ColumnDefV>) -> Result<
    DbV,
    (),
> {
    if db.contains_key(name) {
        Err(())
    } else {
        Ok(db.insert(name, (TableV { name, schema: cols, rows: Seq::empty() })))
    }
}

/// No schema column before `i` carries the same name as column `i`.
pub open spec fn first_occurrence(schema: Seq<ColumnDefV>, i: int) -> bool {
    forall|k: int| 0 <= k < i ==> (#[trigger] schema[k]).name != schema[i].name
}

/// The value paired with the last occurrence of `name` among the first `n`
/// name/value pairs.
pub open spec fn find_last(
    cols: Seq<Seq<char>>,
    vals: Seq<ValueV>,
    n: nat,
    name: Seq<char>,
) -> Option<ValueV>
    decreases n,
{
    if n == 0 {
        None
    } else if cols[n - 1] == name {
        Some(vals[n - 1])
    } else {
        find_last(cols, vals, (n - 1) as nat, name)
    }
}

/// How many name/value pairs an insert column list provides: names and
/// values are zipped, the longer side's surplus dropped.
pub open spec fn pair_count(cols: Seq<Seq<char>>, vals: Seq<ValueV>) -> nat {
    if cols.len() <= vals.len() {
        cols.len()
    } else {
        vals.len()
    }
}

/// The row an insert column list stands for, in schema order: each schema
/// column takes the value supplied under its name (the last supplied one,
/// if a name repeats), or `NULL`; a repeated schema name takes the value
/// only at its first position.
pub open spec fn remap_row(
    schema: Seq<ColumnDefV>,
    cols: Seq<Seq<char>>,
    vals: Seq<ValueV>,
) -> Seq<ValueV> {
    Seq::new(
        schema.len(),
        |i: int|
            if first_occurrence(schema, i) {
                match find_last(cols, vals, pair_count(cols, vals), schema[i].name) {
                    Some(v) => v,
                    None => ValueV::Null,
                }
            } else {
                ValueV::Null
            },
    )
}

/// Inserting one row: the table must exist, every named column must be a
/// schema column, the table must have room, and the row must fit the
/// schema; nothing changes otherwise.
pub open spec fn spec_insert_stmt(db: DbV, ins: InsertIntoV) -> Result<DbV, ()> {
    if !db.contains_key(ins.table) {
        Err(())
    } else {
        let t = db[ins.table];
        let row_step: Result<Seq<ValueV>, ()> = match ins.columns {
            None => Ok(ins.values),
            Some(cols) => if forall|j: int|
                0 <= j < cols.len() ==> col_index(t.schema, #[trigger] cols[j]) >= 0 {
                Ok(remap_row(t.schema, cols, ins.values))
            } else {
                Err(())
            },
        };
        match row_step {
            Err(_) => Err(()),
            Ok(row) => if t.rows.len() >= 0x7FFFFFF {
                Err(())
            } else if !row_matches_schema(t.schema, row) {
                Err(())
            } else {
                Ok(
                    db.insert(
                        ins.table,
                        (TableV { name: t.name, schema: t.schema, rows: t.rows.push(row) }),
                    ),
                )
            },
        }
    }
}

/// Deleting matching rows: the rows that fail the filter survive, in
/// order.
pub open spec fn spec_delete_stmt(db: DbV, d: DeleteV) -> Result<DbV, ()> {
    if !db.contains_key(d.table) {
        Err(())
    } else {
        let t = db[d.table];
        match spec_mask(t, Some(d.where_clause), 0, Seq::empty()) {
            Err(_) => Err(()),
            Ok(mask) => Ok(
                db.insert(
                    d.table,
                    (
                        TableV {
                            name: t.name,
                            schema: t.schema,
                            rows: select_rows(t.rows, mask, false, 0),
                        }
                    ),
                ),
            ),
        }
    }
}

/// One assignment applied to every matching row of the table.
pub open spec fn apply_assign(t: TableV, mask: Seq<bool>, ci: int, v: ValueV) -> TableV {
    TableV {
        name: t.name,
        schema: t.schema,
        rows: Seq::new(
            t.rows.len(),
            |r: int|
                if mask[r] {
                    t.rows[r].update(ci, v)
                } else {
                    t.rows[r]
                },
        ),
    }
}

/// The assignments of an `UPDATE`, applied in order to the matching rows.
/// An unknown column, or a typed value that does not fit its column while
/// some row matches, stops the statement; assignments already applied
/// stay applied.
pub open spec fn spec_apply_assignments(
    t: TableV,
    mask: Seq<bool>,
    assigns: Seq<(Seq<char>, ValueV)>,
    k: nat,
) -> (Result<(), ()>, TableV)
    decreases assigns.len() - k,
{
    if k >= assigns.len() {
        (Ok(()), t)
    } else {
        let name = assigns[k as int].0;
        let v = assigns[k as int].1;
        let ci = col_index(t.schema, name);
        if ci < 0 {
            (Err(()), t)
        } else if !(v is Null) && v.spec_data_type() != Some(t.schema[ci].data_type) && (exists|
            r: int,
        | 0 <= r < mask.len() && mask[r]) {
            (Err(()), t)
        } else {
            spec_apply_assignments(apply_assign(t, mask, ci, v), mask, assigns, k + 1)
        }
    }
}

/// Updating matching rows: scan once, then apply each assignment.
pub open spec fn spec_update_stmt(db: DbV, u: UpdateV) -> (Result<(), ()>, DbV) {
    if !db.contains_key(u.table) {
        (Err(()), db)
    } else {
        let t = db[u.table];
        match spec_mask(t, Some(u.where_clause), 0, Seq::empty()) {
            Err(_) => (Err(()), db),
            Ok(mask) => {
                let step = spec_apply_assignments(t, mask, u.assignments, 0);
                (step.0, db.insert(u.table, step.1))
            },
        }
    }
}

/// The opposite sort direction.
pub open spec fn rev_ord(o: Ordering) -> Ordering {
    match o {
        Ordering::Less => Ordering::Greater,
        Ordering::Greater => Ordering::Less,
        Ordering::Equal => Ordering::Equal,
    }
}

/// Compares two rows key by key: the first key that differs decides,
/// reversed on a descending key; rows equal on every key tie.
pub open spec fn row_cmp(
    keys: Seq<(int, bool)>,
    a: Seq<ValueV>,
    b: Seq<ValueV>,
    k: nat,
) -> Ordering
    decreases keys.len() - k,
{
    if k >= keys.len() {
        Ordering::Equal
    } else {
        let o = value_cmp_spec(a[keys[k as int].0], b[keys[k as int].0]);
        let o2 = if keys[k as int].1 {
            rev_ord(o)
        } else {
            o
        };
        if o2 is Equal {
            row_cmp(keys, a, b, k + 1)
        } else {
            o2
        }
    }
}

/// Inserts a row into a sorted run, behind every row it does not have to
/// precede - rows that tie keep their order, which makes the sort stable.
pub open spec fn insert_sorted(
    keys: Seq<(int, bool)>,
    r: Seq<ValueV>,
    sorted: Seq<Seq<ValueV>>,
) -> Seq<Seq<ValueV>>
    decreases sorted.len(),
{
    if sorted.len() == 0 {
        seq![r]
    } else if row_cmp(keys, sorted.last(), r, 0) is Greater {
        insert_sorted(keys, r, sorted.drop_last()).push(sorted.last())
    } else {
        sorted.push(r)
    }
}

/// The stable multi-key sort of the rows: each row in turn inserted into
/// the sorted run of the rows before it.
pub open spec fn sort_rows(keys: Seq<(int, bool)>, rows: Seq<Seq<ValueV>>) -> Seq<Seq<ValueV>>
    decreases rows.len(),
{
    if rows.len() == 0 {
        Seq::empty()
    } else {
        insert_sorted(keys, rows.last(), sort_rows(keys, rows.drop_last()))
    }
}

/// Resolves the `ORDER BY` keys to column positions and directions; an
/// unknown column is an error.
pub open spec fn resolve_keys(
    schema: Seq<ColumnDefV>,
    order: Seq<OrderByV>,
    k: nat,
    acc: Seq<(int, bool)>,
) -> Result<Seq<(int, bool)>, ()>
    decreases order.len() - k,
{
    if k >= order.len() {
        Ok(acc)
    } else {
        let ci = col_index(schema, order[k as int].column);
        if ci < 0 {
            Err(())
        } else {
            resolve_keys(schema, order, k + 1, acc.push((ci, order[k as int].direction is Desc)))
        }
    }
}

/// The names a projection stands for: every schema column for `*`, the
/// written list otherwise.
pub open spec fn selected_names(cols: ColumnsSelectV, schema: Seq<ColumnDefV>) -> Seq<Seq<char>> {
    match cols {
        ColumnsSelectV::Star => schema.map_values(|d: ColumnDefV| d.name),
        ColumnsSelectV::ColumnsNames(c) => c,
    }
}

/// One result row: the selected columns of a full row, each found by its
/// name's first schema position.
pub open spec fn project_row(
    schema: Seq<ColumnDefV>,
    selected: Seq<Seq<char>>,
    row: Seq<ValueV>,
) -> Seq<ValueV> {
    Seq::new(selected.len(), |j: int| row[col_index(schema, selected[j])])
}

/// A `SELECT`: filter, sort, project, and cut to the limit.
pub open spec fn spec_query_stmt(db: DbV, s: SelectV) -> Result<QueryResultV, ()> {
    if !db.contains_key(s.table) {
        Err(())
    } else {
        let t = db[s.table];
        match spec_mask(t, s.where_clause, 0, Seq::empty()) {
            Err(_) => Err(()),
            Ok(mask) => {
                let filtered = select_rows(t.rows, mask, true, 0);
                let sorted_step: Result<Seq<Seq<ValueV>>, ()> = match s.order_by {
                    None => Ok(filtered),
                    Some(keys) => if keys.len() == 0 {
                        Ok(filtered)
                    } else {
                        match resolve_keys(t.schema, keys, 0, Seq::empty()) {
                            Err(_) => Err(()),
                            Ok(rk) => Ok(sort_rows(rk, filtered)),
                        }
                    },
                };
                match sorted_step {
                    Err(_) => Err(()),
                    Ok(sorted) => {
                        let selected = selected_names(s.columns, t.schema);
                        if !(forall|j: int|
                            0 <= j < selected.len() ==> col_index(t.schema, #[trigger] selected[j])
                                >= 0) {
                            Err(())
                        } else {
                            let cut: nat = match s.limit {
                                Some(l) => if l < sorted.len() {
                                    l as nat
                                } else {
                                    sorted.len()
                                },
                                None => sorted.len(),
                            };
                            Ok(
                                (
                                    QueryResultV {
                                        columns: selected,
                                        rows: Seq::new(
                                            cut,
                                            |r: int| project_row(t.schema, selected, sorted[r]),
                                        ),
                                    }
                                ),
                            )
                        }
                    },
                }
            },
        }
    }
}

/// One parsed statement, run against the database: the mutating ones
/// return the new catalog (an update keeps what it applied before
/// failing), and a `SELECT` is not executable.
pub open spec fn spec_exec_statement(db: DbV, st: StatementV) -> (Result<(), ()>, DbV) {
    match st {
        StatementV::CreateTable(c) => match spec_create_table(db, c.name, c.columns) {
            Ok(d2) => (Ok(()), d2),
            Err(_) => (Err(()), db),
        },
        StatementV::InsertInto(i) => match spec_insert_stmt(db, i) {
            Ok(d2) => (Ok(()), d2),
            Err(_) => (Err(()), db),
        },
        StatementV::Delete(d) => match spec_delete_stmt(db, d) {
            Ok(d2) => (Ok(()), d2),
            Err(_) => (Err(()), db),
        },
        StatementV::Update(u) => spec_update_stmt(db, u),
        StatementV::Select(_) => (Err(()), db),
    }
}

/// What `execute` does to the database for a given SQL text: scan, parse,
/// run; a scan or parse error leaves the catalog as it was.
pub open spec fn spec_execute(db: DbV, sql: Seq<char>) -> (Result<(), ()>, DbV) {
    match spec_tokenize(sql) {
        Err(_) => (Err(()), db),
        Ok(ts) => match spec_parse(ts) {
            Err(_) => (Err(()), db),
            Ok(st) => spec_exec_statement(db, st),
        },
    }
}

/// What `query` returns for a given SQL text: scan, parse, and run the
/// statement, which must be a `SELECT`.
pub open spec fn spec_query(db: DbV, sql: Seq<char>) -> Result<QueryResultV, ()> {
    match spec_tokenize(sql) {
        Err(_) => Err(()),
        Ok(ts) => match spec_parse(ts) {
            Err(_) => Err(()),
            Ok(st) => match st {
                StatementV::Select(s) => spec_query_stmt(db, s),
                _ => Err(()),
            },
        },
    }
}

/// The filter of an optional `WHERE` clause, as a model.
pub open spec fn opt_expr_view(w: Option<&Expr>) -> Option<ExprV> {
    match w {
        Some(e) => Some(e@),
        None => None,
    }
}

/// The views of a sequence of rows.
pub open spec fn row_views(s: Seq<Vec<Value>>) -> Seq<Seq<ValueV>> {
    s.map_values(|row: Vec<Value>| views_of(row@))
}

/// The views of a sequence of resolved sort keys.
pub open spec fn key_views(s: Seq<(usize, bool)>) -> Seq<(int, bool)> {
    s.map_values(|k: (usize, bool)| (k.0 as int, k.1))
}

/// Position of the first schema column carrying `name`, `None` when
/// absent.
fn schema_index(schema: &Schema, name: &str) -> (r: Option<usize>)
    ensures
        match r {
            Some(i) => i as int == col_index(schema@, name@) && i < schema@.len(),
            None => col_index(schema@, name@) == -1,
        },
{
    let mut i: usize = 0;
    while i < schema.columns.len()
        invariant
            i <= schema.columns@.len(),
            col_index(schema@, name@) == crate::table::col_index_from(schema@, name@, i as nat),
        decreases schema.columns@.len() - i,
    {
        if str_eq(schema.columns[i].name.as_str(), name) {
            return Some(i);
        }
        i = i + 1;
    }
    None
}

/// True when one of the first `upto` schema columns carries `name`.
fn schema_has_before(schema: &Schema, upto: usize, name: &str) -> (r: bool)
    requires
        upto <= schema@.len(),
    ensures
        r == exists|k: int| 0 <= k < upto && (#[trigger] schema@[k]).name == name@,
{
    let mut k: usize = 0;
    while k < upto
        invariant
            k <= upto,
            upto <= schema@.len(),
            forall|j: int| 0 <= j < k as int ==> (#[trigger] schema@[j]).name != name@,
        decreases upto - k,
    {
        if str_eq(schema.columns[k].name.as_str(), name) {
            proof {
                assert(schema@[k as int].name == name@);
            }
            return true;
        }
        k = k + 1;
    }
    false
}

/// The value paired with the last occurrence of `name` in the zipped
/// column/value lists, `None` when the name never occurs.
fn find_last_named(cols: &Vec<String>, vals: &Vec<Value>, name: &str) -> (r: Option<Value>)
    ensures
        match r {
            Some(v) => find_last(
                crate::ast::string_views(cols@),
                views_of(vals@),
                pair_count(crate::ast::string_views(cols@), views_of(vals@)),
                name@,
            ) == Some(v@),
            None => find_last(
                crate::ast::string_views(cols@),
                views_of(vals@),
                pair_count(crate::ast::string_views(cols@), views_of(vals@)),
                name@,
            ) is None,
        },
{
    let mut n: usize = if cols.len() <= vals.len() {
        cols.len()
    } else {
        vals.len()
    };
    while n > 0
        invariant
            n <= cols@.len(),
            n <= vals@.len(),
            find_last(
                crate::ast::string_views(cols@),
                views_of(vals@),
                pair_count(crate::ast::string_views(cols@), views_of(vals@)),
                name@,
            ) == find_last(
                crate::ast::string_views(cols@),
                views_of(vals@),
                n as nat,
                name@,
            ),
        decreases n,
    {
        if str_eq(cols[n - 1].as_str(), name) {
            return Some(vals[n - 1].clone());
        }
        n = n - 1;
    }
    None
}

/// Builds the schema-ordered row that an insert column list stands for.
fn build_remapped_row(table: &Table, cols: &Vec<String>, vals: &Vec<Value>) -> (r: Vec<Value>)
    requires
        table.wf(),
        all_wf(views_of(vals@)),
    ensures
        views_of(r@) == remap_row(table.schema@, crate::ast::string_views(cols@), views_of(vals@)),
        all_wf(views_of(r@)),
{
    let ghost target = remap_row(table.schema@, crate::ast::string_views(cols@), views_of(vals@));
    let mut row: Vec<Value> = Vec::new();
    let mut i: usize = 0;
    while i < table.schema.columns.len()
        invariant
            table.wf(),
            all_wf(views_of(vals@)),
            i <= table.schema@.len(),
            row@.len() == i,
            target == remap_row(
                table.schema@,
                crate::ast::string_views(cols@),
                views_of(vals@),
            ),
            forall|j: int|
                0 <= j < i as int ==> views_of(row@)[j] == target[j] && (#[trigger] row@[
                    j
                ])@.wf(),
        decreases table.schema@.len() - i,
    {
        let name = &table.schema.columns[i].name;
        let dup = schema_has_before(&table.schema, i, name.as_str());
        let v: Value = if dup {
            Value::Null
        } else {
            match find_last_named(cols, vals, name.as_str()) {
                Some(v) => v,
                None => Value::Null,
            }
        };
        proof {
            if !dup {
                assert(first_occurrence(table.schema@, i as int));
                lemma_find_last_wf(
                    crate::ast::string_views(cols@),
                    views_of(vals@),
                    pair_count(crate::ast::string_views(cols@), views_of(vals@)),
                    table.schema@[i as int].name,
                );
            }
        }
        row.push(v);
        i = i + 1;
    }
    proof {
        assert(views_of(row@) =~= target);
    }
    row
}

/// A value found among well-formed values is well formed.
proof fn lemma_find_last_wf(cols: Seq<Seq<char>>, vals: Seq<ValueV>, n: nat, name: Seq<char>)
    requires
        all_wf(vals),
        n <= vals.len(),
    ensures
        find_last(cols, vals, n, name) matches Some(v) ==> v.wf(),
    decreases n,
{
    if n > 0 && cols[n - 1] != name {
        lemma_find_last_wf(cols, vals, (n - 1) as nat, name);
    }
}

impl Database {
    /// Compares two values under SQL's three-valued logic.
    fn compare_values(&self, left: &Value, op: &ComparisonOp, right: &Value) -> (r: Result<
        bool,
        String,
    >)
        requires
            left@.wf(),
            right@.wf(),
        ensures
            match r {
                Ok(b) => spec_cmp_values(left@, *op, right@) == Ok::<bool, ()>(b),
                Err(_) => spec_cmp_values(left@, *op, right@) is Err,
            },
    {
        if left.is_null() || right.is_null() {
            return Ok(false);
        }
        match (left, op, right) {
            (Value::Int(a), ComparisonOp::Gt, Value::Int(b)) => Ok(*a > *b),
            (Value::Int(a), ComparisonOp::Lt, Value::Int(b)) => Ok(*a < *b),
            (Value::Int(a), ComparisonOp::Eq, Value::Int(b)) => Ok(*a == *b),
            (Value::Float(a), ComparisonOp::Gt, Value::Float(b)) => Ok(
                matches!(b.cmp_dec(a), Ordering::Less),
            ),
            (Value::Float(a), ComparisonOp::Lt, Value::Float(b)) => Ok(
                matches!(a.cmp_dec(b), Ordering::Less),
            ),
            (Value::Float(a), ComparisonOp::Eq, Value::Float(b)) => Ok(
                matches!(a.cmp_dec(b), Ordering::Equal),
            ),
            (Value::Text(a), ComparisonOp::Eq, Value::Text(b)) => Ok(
                str_eq(a.as_str(), b.as_str()),
            ),
            (Value::Bool(a), ComparisonOp::Eq, Value::Bool(b)) => Ok(*a == *b),
            _ => Err(
                String::from_str("these values cannot be compared: their types do not match"),
            ),
        }
    }

    /// Evaluates a `WHERE` expression on one schema-ordered row.
    fn evaluate_expr(&self, expr: &Expr, row: &Vec<Value>, schema: &Schema) -> (r: Result<
        bool,
        String,
    >)
        requires
            expr_wf(expr@),
            all_wf(views_of(row@)),
            views_of(row@).len() == schema@.len(),
        ensures
            match r {
                Ok(b) => spec_eval_expr(expr@, views_of(row@), schema@) == Ok::<bool, ()>(b),
                Err(_) => spec_eval_expr(expr@, views_of(row@), schema@) is Err,
            },
        decreases expr,
    {
        match expr {
            Expr::Comparison { column, op, value } => {
                match schema_index(schema, column.as_str()) {
                    Some(ci) => {
                        proof {
                            assert(views_of(row@)[ci as int] == row@[ci as int]@);
                            assert(views_of(row@)[ci as int].wf());
                        }
                        self.compare_values(&row[ci], op, value)
                    },
                    None => Err(String::from_str("a column of the WHERE clause was not found")),
                }
            },
            Expr::Or { left, right } => {
                match self.evaluate_expr(&**left, row, schema) {
                    Err(e) => Err(e),
                    Ok(b) => if b {
                        Ok(true)
                    } else {
                        self.evaluate_expr(&**right, row, schema)
                    },
                }
            },
            Expr::And { left, right } => {
                match self.evaluate_expr(&**left, row, schema) {
                    Err(e) => Err(e),
                    Ok(b) => if !b {
                        Ok(false)
                    } else {
                        self.evaluate_expr(&**right, row, schema)
                    },
                }
            },
        }
    }

    /// Scans the table once: one bit per row, whether it passes the
    /// filter.
    fn compute_mask(&self, table: &Table, where_clause: Option<&Expr>) -> (r: Result<
        Vec<bool>,
        String,
    >)
        requires
            table.wf(),
            match where_clause {
                Some(e) => expr_wf(e@),
                None => true,
            },
        ensures
            match r {
                Ok(m) => spec_mask(table@, opt_expr_view(where_clause), 0, Seq::empty())
                    == Ok::<Seq<bool>, ()>(m@) && m@.len() == table@.rows.len(),
                Err(_) => spec_mask(table@, opt_expr_view(where_clause), 0, Seq::empty()) is Err,
            },
    {
        let mut mask: Vec<bool> = Vec::new();
        let mut r: usize = 0;
        while r < table.row_count
            invariant
                table.wf(),
                match where_clause {
                    Some(e) => expr_wf(e@),
                    None => true,
                },
                r <= table.row_count,
                mask@.len() == r,
                spec_mask(table@, opt_expr_view(where_clause), 0, Seq::empty()) == spec_mask(
                    table@,
                    opt_expr_view(where_clause),
                    r as nat,
                    mask@,
                ),
            decreases table.row_count - r,
        {
            let row = match table.get_row(r) {
                Some(row) => row,
                None => {
                    proof {
                        assert(false);
                    }
                    return Err(String::from_str("a row vanished during the scan"));
                },
            };
            proof {
                assert(views_of(row@).len() == table@.schema.len());
            }
            let keep: bool = match where_clause {
                Some(e) => match self.evaluate_expr(e, &row, &table.schema) {
                    Ok(b) => b,
                    Err(e2) => {
                        return Err(e2);
                    },
                },
                None => true,
            };
            mask.push(keep);
            r = r + 1;
        }
        Ok(mask)
    }

    /// Runs one `INSERT INTO` statement.
    #[verifier::loop_isolation(false)]
    fn insert_stmt(&mut self, ins: InsertInto) -> (r: Result<(), String>)
        requires
            old(self).wf(),
            all_wf(ins@.values),
        ensures
            final(self).wf(),
            match r {
                Ok(_) => spec_insert_stmt(old(self)@, ins@) == Ok::<DbV, ()>(final(self)@),
                Err(_) => spec_insert_stmt(old(self)@, ins@) is Err && final(self)@ == old(
                    self,
                )@,
            },
    {
        let ghost insv = ins@;
        let i = match self.find_table(ins.table.as_str()) {
            Some(i) => i,
            None => {
                return Err(String::from_str("this table does not exist"));
            },
        };
        let ghost old_tabs = self.tabs();

        let values: Vec<Value> = match ins.columns {
            None => ins.values,
            Some(cols) => {
                let mut j: usize = 0;
                while j < cols.len()
                    invariant
                        self.wf(),
                        self == old(self),
                        i < self.tables@.len(),
                        j <= cols@.len(),
                        forall|k: int|
                            0 <= k < j as int ==> col_index(
                                self.tabs()[i as int].schema,
                                #[trigger] crate::ast::string_views(cols@)[k],
                            ) >= 0,
                    decreases cols@.len() - j,
                {
                    if self.tables[i].col_index_of(cols[j].as_str()).is_none() {
                        proof {
                            assert(crate::ast::string_views(cols@)[j as int] == cols@[j as int]@);
                            assert(col_index(
                                old(self)@[insv.table].schema,
                                crate::ast::string_views(cols@)[j as int],
                            ) == -1);
                            assert(!(forall|k: int|
                                0 <= k < crate::ast::string_views(cols@).len() ==> col_index(
                                    old(self)@[insv.table].schema,
                                    #[trigger] crate::ast::string_views(cols@)[k],
                                ) >= 0));
                        }
                        return Err(
                            String::from_str("a named column does not exist in the table"),
                        );
                    }
                    j = j + 1;
                }
                build_remapped_row(&self.tables[i], &cols, &ins.values)
            },
        };

        if self.tables[i].row_count >= 0x7FFFFFF {
            return Err(String::from_str("the table is full"));
        }
        let ghost tv = self.tabs()[i as int];
        let res = self.tables[i].insert(values);
        match res {
            Ok(_) => {
                proof {
                    let newtv = self.tables@[i as int]@;
                    assert(self.tabs() =~= old_tabs.update(i as int, newtv));
                    lemma_map_of_update(old_tabs, i as int, newtv);
                    assert(distinct_names(self.tabs()));
                    assert(newtv == (TableV {
                        name: tv.name,
                        schema: tv.schema,
                        rows: tv.rows.push(views_of(values@)),
                    }));
                }
                Ok(())
            },
            Err(e) => {
                proof {
                    assert(self.tabs() =~= old_tabs);
                }
                Err(e)
            },
        }
    }

    /// Runs one `DELETE` statement: collects the matching rows in one
    /// read-only scan, then removes them from the highest index down, so
    /// each removal only shifts rows already dealt with.
    #[verifier::loop_isolation(false)]
    fn delete_stmt(&mut self, del: Delete) -> (r: Result<(), String>)
        requires
            old(self).wf(),
            expr_wf(del@.where_clause),
        ensures
            final(self).wf(),
            match r {
                Ok(_) => spec_delete_stmt(old(self)@, del@) == Ok::<DbV, ()>(final(self)@),
                Err(_) => spec_delete_stmt(old(self)@, del@) is Err && final(self)@ == old(
                    self,
                )@,
            },
    {
        let i = match self.find_table(del.table.as_str()) {
            Some(i) => i,
            None => {
                return Err(String::from_str("this table does not exist"));
            },
        };
        let ghost old_tabs = self.tabs();
        let ghost tv = self.tabs()[i as int];

        let mask = match self.compute_mask(&self.tables[i], Some(&del.where_clause)) {
            Ok(m) => m,
            Err(e) => {
                return Err(e);
            },
        };

        let mut k: usize = self.tables[i].row_count;
        proof {
            assert(tv.rows.take(k as int) =~= tv.rows);
            assert(tv.rows.take(k as int) + select_rows(tv.rows, mask@, false, k as nat)
                =~= tv.rows);
        }
        while k > 0
            invariant
                i < self.tables@.len(),
                self.tables@.len() == old(self).tables@.len(),
                mask@.len() == tv.rows.len(),
                k <= tv.rows.len(),
                forall|j: int|
                    0 <= j < self.tables@.len() && j != i as int ==> self.tables@[j] == old(
                        self,
                    ).tables@[j],
                (#[trigger] self.tables@[i as int]).wf(),
                self.tables@[i as int].name == old(self).tables@[i as int].name,
                self.tables@[i as int].schema == old(self).tables@[i as int].schema,
                self.tables@[i as int]@.rows =~= tv.rows.take(k as int) + select_rows(
                    tv.rows,
                    mask@,
                    false,
                    k as nat,
                ),
            decreases k,
        {
            k = k - 1;
            if mask[k] {
                let ghost before = self.tables@[i as int]@.rows;
                let res = self.tables[i].delete_row(k);
                match res {
                    Ok(_) => {
                        proof {
                            assert(self.tables@[i as int]@.rows =~= tv.rows.take(k as int)
                                + select_rows(tv.rows, mask@, false, k as nat));
                        }
                    },
                    Err(_) => {
                        proof {
                            assert(false);
                        }
                        return Err(String::from_str("a row vanished during the delete"));
                    },
                }
            } else {
                proof {
                    assert(self.tables@[i as int]@.rows =~= tv.rows.take(k as int) + select_rows(
                        tv.rows,
                        mask@,
                        false,
                        k as nat,
                    ));
                }
            }
        }
        proof {
            assert(tv.rows.take(0) =~= Seq::<Seq<ValueV>>::empty());
            assert(self.tables@[i as int]@.rows =~= select_rows(tv.rows, mask@, false, 0));
            let newtv = self.tables@[i as int]@;
            assert forall|j: int| 0 <= j < self.tabs().len() implies self.tabs()[j]
                == old_tabs.update(i as int, newtv)[j] by {
                if j != i as int {
                    assert(self.tables@[j] == old(self).tables@[j]);
                }
            }
            assert(self.tabs() =~= old_tabs.update(i as int, newtv));
            lemma_map_of_update(old_tabs, i as int, newtv);
            assert(distinct_names(self.tabs()));
            assert(newtv =~~= (TableV {
                name: tv.name,
                schema: tv.schema,
                rows: select_rows(tv.rows, mask@, false, 0),
            }));
        }
        Ok(())
    }
}

/// The rows of one assignment applied only to the matching rows before
/// `upto`.
pub open spec fn partial_assign_rows(
    rows: Seq<Seq<ValueV>>,
    mask: Seq<bool>,
    ci: int,
    v: ValueV,
    upto: int,
) -> Seq<Seq<ValueV>> {
    Seq::new(
        rows.len(),
        |r: int|
            if r < upto && mask[r] {
                rows[r].update(ci, v)
            } else {
                rows[r]
            },
    )
}

impl Database {
    /// Runs one `UPDATE` statement: collects the matching rows in one
    /// read-only scan, then applies each assignment to them in order. A
    /// failing assignment stops the statement; the ones already applied
    /// stay applied.
    #[verifier::loop_isolation(false)]
    fn update_stmt(&mut self, upd: Update) -> (r: Result<(), String>)
        requires
            old(self).wf(),
            expr_wf(upd@.where_clause),
            forall|k: int|
                0 <= k < upd@.assignments.len() ==> (#[trigger] upd@.assignments[k]).1.wf(),
        ensures
            final(self).wf(),
            final(self)@ == spec_update_stmt(old(self)@, upd@).1,
            match r {
                Ok(_) => spec_update_stmt(old(self)@, upd@).0 is Ok,
                Err(_) => spec_update_stmt(old(self)@, upd@).0 is Err,
            },
    {
        let ghost uv = upd@;
        let i = match self.find_table(upd.table.as_str()) {
            Some(i) => i,
            None => {
                return Err(String::from_str("this table does not exist"));
            },
        };
        let ghost old_tabs = self.tabs();
        let ghost t0 = self.tabs()[i as int];

        let mask = match self.compute_mask(&self.tables[i], Some(&upd.where_clause)) {
            Ok(m) => m,
            Err(e) => {
                return Err(e);
            },
        };

        let mut k: usize = 0;
        while k < upd.assignments.len()
            invariant
                i < self.tables@.len(),
                self.tables@.len() == old(self).tables@.len(),
                k <= uv.assignments.len(),
                mask@.len() == t0.rows.len(),
                forall|j: int|
                    0 <= j < self.tables@.len() && j != i as int ==> self.tables@[j] == old(
                        self,
                    ).tables@[j],
                (#[trigger] self.tables@[i as int]).wf(),
                self.tables@[i as int].name == old(self).tables@[i as int].name,
                self.tables@[i as int].schema == old(self).tables@[i as int].schema,
                self.tables@[i as int]@.rows.len() == t0.rows.len(),
                spec_apply_assignments(t0, mask@, uv.assignments, 0) == spec_apply_assignments(
                    self.tables@[i as int]@,
                    mask@,
                    uv.assignments,
                    k as nat,
                ),
            decreases uv.assignments.len() - k,
        {
            let ghost tk = self.tables@[i as int]@;
            let ci = match self.tables[i].col_index_of(upd.assignments[k].0.as_str()) {
                Some(ci) => ci,
                None => {
                    proof {
                        assert(uv.assignments[k as int].0 == upd.assignments@[k as int].0@);
                        assert(spec_apply_assignments(tk, mask@, uv.assignments, k as nat) == (
                        (Err::<(), ()>(()), tk)));
                        let newtv = self.tables@[i as int]@;
                        assert(self.tabs() =~= old_tabs.update(i as int, newtv));
                        lemma_map_of_update(old_tabs, i as int, newtv);
                        assert(distinct_names(self.tabs()));
                    }
                    return Err(
                        String::from_str("a column of an assignment is not a column of this table"),
                    );
                },
            };
            let ghost vv = uv.assignments[k as int].1;
            proof {
                assert(uv.assignments[k as int] == (
                    upd.assignments@[k as int].0@,
                    upd.assignments@[k as int].1@,
                ));
                assert(vv.wf());
            }

            let mut r0: usize = 0;
            while r0 < self.tables[i].row_count
                invariant
                    i < self.tables@.len(),
                    self.tables@.len() == old(self).tables@.len(),
                    k < uv.assignments.len(),
                    mask@.len() == t0.rows.len(),
                    forall|j: int|
                        0 <= j < self.tables@.len() && j != i as int ==> self.tables@[j] == old(
                            self,
                        ).tables@[j],
                    (#[trigger] self.tables@[i as int]).wf(),
                    self.tables@[i as int].name == old(self).tables@[i as int].name,
                    self.tables@[i as int].schema == old(self).tables@[i as int].schema,
                    self.tables@[i as int]@.schema == tk.schema,
                    self.tables@[i as int]@.name == tk.name,
                    self.tables@[i as int]@.rows.len() == t0.rows.len(),
                    tk.rows.len() == t0.rows.len(),
                    r0 <= t0.rows.len(),
                    self.tables@[i as int].row_count == t0.rows.len(),
                    ci as int == col_index(tk.schema, uv.assignments[k as int].0),
                    ci < tk.schema.len(),
                    vv == uv.assignments[k as int].1,
                    vv.wf(),
                    upd.assignments@[k as int].1@ == vv,
                    self.tables@[i as int]@.rows =~= partial_assign_rows(
                        tk.rows,
                        mask@,
                        ci as int,
                        vv,
                        r0 as int,
                    ),
                    (exists|rr: int| 0 <= rr < r0 as int && mask@[rr]) ==> (vv is Null
                        || vv.spec_data_type() == Some(tk.schema[ci as int].data_type)),
                decreases t0.rows.len() - r0,
            {
                if mask[r0] {
                    let res = self.tables[i].set_value(ci, r0, &upd.assignments[k].1);
                    match res {
                        Ok(_) => {
                            proof {
                                assert(self.tables@[i as int]@.rows =~~= partial_assign_rows(
                                    tk.rows,
                                    mask@,
                                    ci as int,
                                    vv,
                                    r0 as int + 1,
                                ));
                            }
                        },
                        Err(e) => {
                            proof {
                                assert(!(vv is Null) && vv.spec_data_type() != Some(
                                    tk.schema[ci as int].data_type,
                                ));
                                assert(!(exists|rr: int| 0 <= rr < r0 as int && mask@[rr]));
                                assert(self.tables@[i as int]@.rows =~~= tk.rows);
                                assert(self.tables@[i as int]@ =~~= tk);
                                assert(exists|rr: int|
                                    0 <= rr < mask@.len() && mask@[rr]) by {
                                    assert(mask@[r0 as int]);
                                }
                                assert(spec_apply_assignments(tk, mask@, uv.assignments, k as nat)
                                    == ((Err::<(), ()>(()), tk)));
                                let newtv = self.tables@[i as int]@;
                                assert(self.tabs() =~= old_tabs.update(i as int, newtv));
                                lemma_map_of_update(old_tabs, i as int, newtv);
                                assert(distinct_names(self.tabs()));
                                assert(old_tabs.update(i as int, newtv) =~= old_tabs.update(
                                    i as int,
                                    tk,
                                ));
                            }
                            return Err(e);
                        },
                    }
                } else {
                    proof {
                        assert(self.tables@[i as int]@.rows =~~= partial_assign_rows(
                            tk.rows,
                            mask@,
                            ci as int,
                            vv,
                            r0 as int + 1,
                        ));
                    }
                }
                r0 = r0 + 1;
            }
            proof {
                assert(self.tables@[i as int]@.rows =~~= apply_assign(
                    tk,
                    mask@,
                    ci as int,
                    vv,
                ).rows);
                assert(self.tables@[i as int]@ =~~= apply_assign(tk, mask@, ci as int, vv));
                if !(vv is Null) && vv.spec_data_type() != Some(tk.schema[ci as int].data_type) {
                    if exists|rr: int| 0 <= rr < mask@.len() && mask@[rr] {
                        let rr = choose|rr: int| 0 <= rr < mask@.len() && mask@[rr];
                        assert(vv is Null || vv.spec_data_type() == Some(
                            tk.schema[ci as int].data_type,
                        ));
                    }
                }
                assert(spec_apply_assignments(tk, mask@, uv.assignments, k as nat)
                    == spec_apply_assignments(
                    apply_assign(tk, mask@, ci as int, vv),
                    mask@,
                    uv.assignments,
                    k as nat + 1,
                ));
            }
            k = k + 1;
        }
        proof {
            let newtv = self.tables@[i as int]@;
            assert(spec_apply_assignments(t0, mask@, uv.assignments, 0) == (
            (Ok::<(), ()>(()), newtv)));
            assert(self.tabs() =~= old_tabs.update(i as int, newtv));
            lemma_map_of_update(old_tabs, i as int, newtv);
            assert(distinct_names(self.tabs()));
        }
        Ok(())
    }
}

/// A copy of one row, value by value.
fn clone_row(row: &Vec<Value>) -> (r: Vec<Value>)
    ensures
        views_of(r@) == views_of(row@),
        r@.len() == row@.len(),
{
    let mut out: Vec<Value> = Vec::new();
    let mut j: usize = 0;
    while j < row.len()
        invariant
            j <= row@.len(),
            out@.len() == j,
            forall|x: int| 0 <= x < j as int ==> (#[trigger] out@[x])@ == row@[x]@,
        decreases row@.len() - j,
    {
        out.push(row[j].clone());
        j = j + 1;
    }
    proof {
        assert(views_of(out@) =~= views_of(row@));
    }
    out
}

/// Three-way comparison of two rows under the resolved sort keys.
fn row_cmp_exec(keys: &Vec<(usize, bool)>, a: &Vec<Value>, b: &Vec<Value>) -> (r: Ordering)
    requires
        forall|k: int|
            0 <= k < keys@.len() ==> (#[trigger] keys@[k]).0 < a@.len() && keys@[k].0 < b@.len(),
        all_wf(views_of(a@)),
        all_wf(views_of(b@)),
    ensures
        r == row_cmp(key_views(keys@), views_of(a@), views_of(b@), 0),
    decreases keys@.len(),
{
    let mut k: usize = 0;
    while k < keys.len()
        invariant
            k <= keys@.len(),
            forall|x: int|
                0 <= x < keys@.len() ==> (#[trigger] keys@[x]).0 < a@.len() && keys@[x].0
                    < b@.len(),
            all_wf(views_of(a@)),
            all_wf(views_of(b@)),
            row_cmp(key_views(keys@), views_of(a@), views_of(b@), 0) == row_cmp(
                key_views(keys@),
                views_of(a@),
                views_of(b@),
                k as nat,
            ),
        decreases keys@.len() - k,
    {
        let ci = keys[k].0;
        let desc = keys[k].1;
        proof {
            assert(views_of(a@)[ci as int] == a@[ci as int]@);
            assert(views_of(a@)[ci as int].wf());
            assert(views_of(b@)[ci as int] == b@[ci as int]@);
            assert(views_of(b@)[ci as int].wf());
        }
        let o = value_cmp(&a[ci], &b[ci]);
        let o2 = if desc {
            match o {
                Ordering::Less => Ordering::Greater,
                Ordering::Greater => Ordering::Less,
                Ordering::Equal => Ordering::Equal,
            }
        } else {
            o
        };
        if !matches!(o2, Ordering::Equal) {
            return o2;
        }
        k = k + 1;
    }
    Ordering::Equal
}

/// Where a row lands when inserted into a sorted run: past every row that
/// must come after it, and behind every row it ties with.
proof fn lemma_insert_at(
    keys: Seq<(int, bool)>,
    r: Seq<ValueV>,
    sorted: Seq<Seq<ValueV>>,
    j: int,
)
    requires
        0 <= j <= sorted.len(),
        forall|x: int| j <= x < sorted.len() ==> row_cmp(keys, #[trigger] sorted[x], r, 0)
            is Greater,
        j > 0 ==> !(row_cmp(keys, sorted[j - 1], r, 0) is Greater),
    ensures
        insert_sorted(keys, r, sorted) == sorted.take(j) + seq![r] + sorted.skip(j),
    decreases sorted.len(),
{
    if sorted.len() == 0 {
        assert(insert_sorted(keys, r, sorted) =~= sorted.take(j) + seq![r] + sorted.skip(j));
    } else if row_cmp(keys, sorted.last(), r, 0) is Greater {
        assert(j < sorted.len());
        lemma_insert_at(keys, r, sorted.drop_last(), j);
        assert((sorted.drop_last().take(j) + seq![r] + sorted.drop_last().skip(j)).push(
            sorted.last(),
        ) =~= sorted.take(j) + seq![r] + sorted.skip(j));
    } else {
        assert(j == sorted.len());
        assert(insert_sorted(keys, r, sorted) == sorted.push(r));
        assert(sorted.push(r) =~= sorted.take(j) + seq![r] + sorted.skip(j));
    }
}

/// Sorts the rows by the resolved keys, stably: rows that tie on every
/// key keep their relative order.
#[verifier::loop_isolation(false)]
fn sort_exec(keys: &Vec<(usize, bool)>, rows: &Vec<Vec<Value>>, Ghost(w): Ghost<nat>) -> (r: Vec<
    Vec<Value>,
>)
    requires
        forall|x: int|
            0 <= x < rows@.len() ==> (#[trigger] rows@[x])@.len() == w && all_wf(
                views_of(rows@[x]@),
            ),
        forall|k: int| 0 <= k < keys@.len() ==> (#[trigger] keys@[k]).0 < w,
    ensures
        row_views(r@) == sort_rows(key_views(keys@), row_views(rows@)),
        forall|x: int|
            0 <= x < r@.len() ==> (#[trigger] r@[x])@.len() == w && all_wf(views_of(r@[x]@)),
{
    let mut out: Vec<Vec<Value>> = Vec::new();
    proof {
        assert(row_views(out@) =~= Seq::<Seq<ValueV>>::empty());
        assert(row_views(rows@).take(0) =~= Seq::<Seq<ValueV>>::empty());
    }
    let mut i: usize = 0;
    while i < rows.len()
        invariant
            i <= rows@.len(),
            row_views(out@) == sort_rows(key_views(keys@), row_views(rows@).take(i as int)),
            forall|x: int|
                0 <= x < out@.len() ==> (#[trigger] out@[x])@.len() == w && all_wf(
                    views_of(out@[x]@),
                ),
        decreases rows@.len() - i,
    {
        let row = clone_row(&rows[i]);
        let ghost rv = views_of(row@);
        let mut j: usize = out.len();
        loop
            invariant
                j <= out@.len(),
                views_of(row@) == rv,
                row@.len() == w,
                all_wf(rv),
                forall|x: int|
                    0 <= x < out@.len() ==> (#[trigger] out@[x])@.len() == w && all_wf(
                        views_of(out@[x]@),
                    ),
                forall|x: int|
                    j as int <= x < out@.len() ==> row_cmp(
                        key_views(keys@),
                        #[trigger] row_views(out@)[x],
                        rv,
                        0,
                    ) is Greater,
            decreases j,
        {
            if j == 0 {
                break ;
            }
            let c = row_cmp_exec(keys, &out[j - 1], &row);
            if !matches!(c, Ordering::Greater) {
                break ;
            }
            proof {
                assert(row_views(out@)[j - 1] == views_of(out@[j - 1]@));
            }
            j = j - 1;
        }
        let ghost prev = out@;
        out.insert(j, row);
        proof {
            lemma_insert_at(key_views(keys@), rv, row_views(prev), j as int);
            assert(row_views(out@) =~= row_views(prev).take(j as int) + seq![rv] + row_views(
                prev,
            ).skip(j as int));
            assert(row_views(rows@).take(i as int + 1).drop_last() =~= row_views(rows@).take(
                i as int,
            ));
            assert(row_views(rows@).take(i as int + 1).last() == rv);
            assert(row_views(out@) =~= insert_sorted(
                key_views(keys@),
                rv,
                sort_rows(key_views(keys@), row_views(rows@).take(i as int)),
            ));
        }
        i = i + 1;
    }
    proof {
        assert(row_views(rows@).take(rows@.len() as int) =~= row_views(rows@));
    }
    out
}

impl Database {
    /// Runs one `SELECT` statement: scan and filter, sort, project, cut.
    #[verifier::loop_isolation(false)]
    #[verifier::rlimit(100)]
    fn run_select(&self, sel: Select) -> (r: Result<QueryResult, String>)
        requires
            self.wf(),
            match sel@.where_clause {
                Some(e) => expr_wf(e),
                None => true,
            },
        ensures
            match r {
                Ok(qr) => spec_query_stmt(self@, sel@) == Ok::<QueryResultV, ()>(qr@),
                Err(_) => spec_query_stmt(self@, sel@) is Err,
            },
    {
        let ghost sv = sel@;
        let i = match self.find_table(sel.table.as_str()) {
            Some(i) => i,
            None => {
                return Err(String::from_str("this table does not exist"));
            },
        };
        let table = &self.tables[i];
        let ghost tv = self.tabs()[i as int];
        let ghost w = table.schema@.len();

        let where_ref: Option<&Expr> = match &sel.where_clause {
            Some(e) => Some(e),
            None => None,
        };
        proof {
            assert(opt_expr_view(where_ref) == sv.where_clause);
        }
        let mask = match self.compute_mask(table, where_ref) {
            Ok(m) => m,
            Err(e) => {
                return Err(e);
            },
        };

        // Filter: keep the rows whose mask bit is set.
        let mut rows: Vec<Vec<Value>> = Vec::new();
        proof {
            assert(row_views(rows@) =~= Seq::<Seq<ValueV>>::empty());
        }
        let mut r0: usize = 0;
        while r0 < table.row_count
            invariant
                r0 <= tv.rows.len(),
                mask@.len() == tv.rows.len(),
                select_rows(tv.rows, mask@, true, 0) =~= row_views(rows@) + select_rows(
                    tv.rows,
                    mask@,
                    true,
                    r0 as nat,
                ),
                forall|x: int|
                    0 <= x < rows@.len() ==> (#[trigger] rows@[x])@.len() == w && all_wf(
                        views_of(rows@[x]@),
                    ),
            decreases tv.rows.len() - r0,
        {
            if mask[r0] {
                let row = match table.get_row(r0) {
                    Some(row) => row,
                    None => {
                        proof {
                            assert(false);
                        }
                        return Err(String::from_str("a row vanished during the scan"));
                    },
                };
                let ghost prev = rows@;
                proof {
                    assert(views_of(row@).len() == w);
                    assert(row@.len() == w);
                }
                rows.push(row);
                proof {
                    assert(row_views(rows@) =~= row_views(prev).push(views_of(row@)));
                    assert(row_views(prev).push(views_of(row@)) + select_rows(
                        tv.rows,
                        mask@,
                        true,
                        r0 as nat + 1,
                    ) =~= row_views(prev) + (seq![tv.rows[r0 as int]] + select_rows(
                        tv.rows,
                        mask@,
                        true,
                        r0 as nat + 1,
                    )));
                }
            }
            r0 = r0 + 1;
        }
        proof {
            assert(select_rows(tv.rows, mask@, true, tv.rows.len() as nat)
                =~= Seq::<Seq<ValueV>>::empty());
            assert(row_views(rows@) + Seq::<Seq<ValueV>>::empty() =~= row_views(rows@));
            assert(row_views(rows@) =~= select_rows(tv.rows, mask@, true, 0));
        }

        // Sort, when an ORDER BY clause with at least one key is present.
        let sorted: Vec<Vec<Value>> = match &sel.order_by {
            Some(order) => {
                if order.len() == 0 {
                    rows
                } else {
                    let mut keys: Vec<(usize, bool)> = Vec::new();
                    proof {
                        assert(key_views(keys@) =~= Seq::<(int, bool)>::empty());
                    }
                    let mut k: usize = 0;
                    while k < order.len()
                        invariant
                            k <= order@.len(),
                            forall|x: int|
                                0 <= x < keys@.len() ==> (#[trigger] keys@[x]).0 < w,
                            resolve_keys(
                                tv.schema,
                                crate::ast::order_by_views(order@),
                                0,
                                Seq::empty(),
                            ) == resolve_keys(
                                tv.schema,
                                crate::ast::order_by_views(order@),
                                k as nat,
                                key_views(keys@),
                            ),
                        decreases order@.len() - k,
                    {
                        let ci = match table.col_index_of(order[k].column.as_str()) {
                            Some(ci) => ci,
                            None => {
                                proof {
                                    assert(crate::ast::order_by_views(order@)[k as int].column
                                        == order@[k as int].column@);
                                }
                                return Err(String::from_str("an ORDER BY column was not found"));
                            },
                        };
                        let ghost prev = keys@;
                        keys.push((ci, matches!(order[k].direction, SortDirection::Desc)));
                        proof {
                            assert(key_views(keys@) =~= key_views(prev).push(
                                (ci as int, order@[k as int].direction is Desc),
                            ));
                            assert(crate::ast::order_by_views(order@)[k as int].direction
                                == order@[k as int].direction);
                        }
                        k = k + 1;
                    }
                    sort_exec(&keys, &rows, Ghost(w))
                }
            },
            None => rows,
        };

        // Resolve the projection.
        let selected: Vec<String> = match sel.columns {
            ColumnsSelect::Star => {
                let mut names: Vec<String> = Vec::new();
                let mut c: usize = 0;
                while c < table.schema.columns.len()
                    invariant
                        c <= tv.schema.len(),
                        names@.len() == c,
                        forall|x: int|
                            0 <= x < c as int ==> (#[trigger] names@[x])@ == tv.schema[x].name,
                    decreases tv.schema.len() - c,
                {
                    names.push(table.schema.columns[c].name.clone());
                    c = c + 1;
                }
                proof {
                    assert(crate::ast::string_views(names@) =~= tv.schema.map_values(
                        |d: ColumnDefV| d.name,
                    ));
                }
                names
            },
            ColumnsSelect::ColumnsNames(c) => c,
        };
        let ghost selv = crate::ast::string_views(selected@);
        proof {
            assert(selv == selected_names(sv.columns, tv.schema));
        }

        let mut idxs: Vec<usize> = Vec::new();
        let mut j: usize = 0;
        while j < selected.len()
            invariant
                j <= selected@.len(),
                idxs@.len() == j,
                forall|x: int|
                    0 <= x < j as int ==> (#[trigger] idxs@[x]) as int == col_index(
                        tv.schema,
                        selv[x],
                    ) && 0 <= idxs@[x] < w,
            decreases selected@.len() - j,
        {
            match table.col_index_of(selected[j].as_str()) {
                Some(ci) => {
                    idxs.push(ci);
                },
                None => {
                    proof {
                        assert(col_index(tv.schema, selv[j as int]) < 0);
                    }
                    return Err(String::from_str("a selected column was not found"));
                },
            }
            j = j + 1;
        }

        // Cut to the limit and project.
        let mut take_n: usize = sorted.len();
        match sel.limit {
            Some(l) => if l < take_n {
                take_n = l;
            },
            None => (),
        }
        let ghost sortedv = row_views(sorted@);
        let mut final_rows: Vec<Vec<Value>> = Vec::new();
        let mut r1: usize = 0;
        while r1 < take_n
            invariant
                r1 <= take_n,
                take_n <= sorted@.len(),
                final_rows@.len() == r1,
                forall|x: int|
                    0 <= x < r1 as int ==> views_of((#[trigger] final_rows@[x])@) == project_row(
                        tv.schema,
                        selv,
                        sortedv[x],
                    ),
            decreases take_n - r1,
        {
            let src = &sorted[r1];
            let mut out_row: Vec<Value> = Vec::new();
            let mut j2: usize = 0;
            while j2 < idxs.len()
                invariant
                    j2 <= idxs@.len(),
                    r1 < sorted@.len(),
                    out_row@.len() == j2,
                    src == &sorted@[r1 as int],
                    forall|x: int|
                        0 <= x < j2 as int ==> (#[trigger] out_row@[x])@ == project_row(
                            tv.schema,
                            selv,
                            sortedv[r1 as int],
                        )[x],
                decreases idxs@.len() - j2,
            {
                proof {
                    assert(sortedv[r1 as int] == views_of(sorted@[r1 as int]@));
                }
                out_row.push(src[idxs[j2]].clone());
                j2 = j2 + 1;
            }
            proof {
                assert(views_of(out_row@) =~= project_row(tv.schema, selv, sortedv[r1 as int]));
            }
            final_rows.push(out_row);
            r1 = r1 + 1;
        }

        let result = QueryResult { columns: selected, rows: final_rows };
        proof {
            let cut: nat = match sv.limit {
                Some(l) => if l < sortedv.len() {
                    l as nat
                } else {
                    sortedv.len()
                },
                None => sortedv.len(),
            };
            assert(result@.columns == selv);
            assert(result@.rows =~= Seq::new(
                cut,
                |r: int| project_row(tv.schema, selv, sortedv[r]),
            ));
            assert(spec_mask(tv, sv.where_clause, 0, Seq::empty()) == Ok::<Seq<bool>, ()>(
                mask@,
            ));
            let filtered = select_rows(tv.rows, mask@, true, 0);
            let sstep: Result<Seq<Seq<ValueV>>, ()> = match sv.order_by {
                None => Ok(filtered),
                Some(keys) => if keys.len() == 0 {
                    Ok(filtered)
                } else {
                    match resolve_keys(tv.schema, keys, 0, Seq::empty()) {
                        Err(_) => Err(()),
                        Ok(rk) => Ok(sort_rows(rk, filtered)),
                    }
                },
            };
            assert(sstep == Ok::<Seq<Seq<ValueV>>, ()>(sortedv));
            assert forall|j: int|
                0 <= j < selv.len() implies col_index(tv.schema, #[trigger] selv[j]) >= 0 by {
                assert(idxs@[j] as int == col_index(tv.schema, selv[j]));
            }
            assert(spec_query_stmt(self@, sv) == Ok::<QueryResultV, ()>(result@));
        }
        Ok(result)
    }

    /// Runs one mutating SQL statement: `CREATE TABLE`, `INSERT INTO`,
    /// `UPDATE` or `DELETE`. A `SELECT` belongs to [`Database::query`].
    pub fn execute(&mut self, sql: &str) -> (r: Result<(), String>)
        requires
            old(self).wf(),
        ensures
            final(self).wf(),
            final(self)@ == spec_execute(old(self)@, sql@).1,
            match r {
                Ok(_) => spec_execute(old(self)@, sql@).0 is Ok,
                Err(_) => spec_execute(old(self)@, sql@).0 is Err,
            },
    {
        let mut tokenizer = Tokenizer::new(sql);
        let tokens = match tokenizer.tokenize() {
            Ok(t) => t,
            Err(e) => {
                return Err(e);
            },
        };
        let ghost ts = token_views(tokens@);
        let mut parser = Parser::new(tokens);
        let statement = match parser.parse() {
            Ok(st) => st,
            Err(e) => {
                return Err(e);
            },
        };
        proof {
            crate::parser::lemma_parse_wf(ts, 0);
        }
        match statement {
            Statement::CreateTable(c) => {
                let res = self.create_table(c.name, Schema { columns: c.columns });
                match res {
                    Ok(_) => Ok(()),
                    Err(e) => Err(e),
                }
            },
            Statement::InsertInto(ins) => self.insert_stmt(ins),
            Statement::Delete(d) => self.delete_stmt(d),
            Statement::Update(u) => self.update_stmt(u),
            Statement::Select(_) => Err(
                String::from_str("a SELECT statement is not an executable statement"),
            ),
        }
    }

    /// Runs one `SELECT` statement and returns its result set. Any other
    /// statement belongs to [`Database::execute`].
    pub fn query(&self, sql: &str) -> (r: Result<QueryResult, String>)
        requires
            self.wf(),
        ensures
            match r {
                Ok(qr) => spec_query(self@, sql@) == Ok::<QueryResultV, ()>(qr@),
                Err(_) => spec_query(self@, sql@) is Err,
            },
    {
        let mut tokenizer = Tokenizer::new(sql);
        let tokens = match tokenizer.tokenize() {
            Ok(t) => t,
            Err(e) => {
                return Err(e);
            },
        };
        let ghost ts = token_views(tokens@);
        let mut parser = Parser::new(tokens);
        let statement = match parser.parse() {
            Ok(st) => st,
            Err(e) => {
                return Err(e);
            },
        };
        proof {
            crate::parser::lemma_parse_wf(ts, 0);
        }
        match statement {
            Statement::Select(sel) => self.run_select(sel),
            _ => Err(String::from_str("this statement is not a queryable statement")),
        }
    }
}

} // verus!
