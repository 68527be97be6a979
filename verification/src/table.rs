use vstd::prelude::*;

use crate::bits::bits_fit;
use crate::column::Column;
use crate::data_type::DataType;
use crate::value::{all_wf, str_eq, views_of, Value, ValueV};
use vstd::string::StringExecFns;

verus! {

/// The definition of one column in a table's schema.
#[derive(Debug, PartialEq)]
pub struct ColumnDef {
    /// The column's name.
    pub name: String,
    /// The type its values must have.
    pub data_type: DataType,
}

/// The model of a [`ColumnDef`].
pub struct ColumnDefV {
    pub name: Seq<char>,
    pub data_type: DataType,
}

impl View for ColumnDef {
    type V = ColumnDefV;

    open spec fn view(&self) -> ColumnDefV {
        ColumnDefV { name: self.name@, data_type: self.data_type }
    }
}

impl Clone for ColumnDef {
    fn clone(&self) -> (res: Self)
        ensures
            res == *self,
    {
        ColumnDef { name: self.name.clone(), data_type: self.data_type }
    }
}

/// The structure of a table: an ordered list of column definitions.
#[derive(Debug)]
pub struct Schema {
    /// The column definitions, in schema order.
    pub columns: Vec<ColumnDef>,
}

impl View for Schema {
    type V = Seq<ColumnDefV>;

    open spec fn view(&self) -> Seq<ColumnDefV> {
        self.columns@.map_values(|d: ColumnDef| d@)
    }
}

/// Index of the first schema column with the given name, from position `i`
/// on; `-1` when no column carries it.
pub open spec fn col_index_from(s: Seq<ColumnDefV>, name: Seq<char>, i: nat) -> int
    decreases s.len() - i,
{
    if i >= s.len() {
        -1
    } else if s[i as int].name == name {
        i as int
    } else {
        col_index_from(s, name, i + 1)
    }
}

/// Index of the first schema column with the given name, `-1` when absent.
pub open spec fn col_index(s: Seq<ColumnDefV>, name: Seq<char>) -> int {
    col_index_from(s, name, 0)
}

/// A row fits a schema: same width, and each non-NULL value carries the
/// column's type.
pub open spec fn row_matches_schema(s: Seq<ColumnDefV>, vals: Seq<ValueV>) -> bool {
    &&& vals.len() == s.len()
    &&& forall|i: int|
        0 <= i < s.len() ==> (vals[i] is Null || vals[i].spec_data_type() == Some(
            s[i].data_type,
        ))
}

/// An in-memory table: a schema and one [`Column`] of storage per schema
/// entry, all kept at `row_count` rows.
pub struct Table {
    /// The table's name.
    pub name: String,
    /// The table's structure.
    pub schema: Schema,
    /// The storage, one column per schema entry, in schema order.
    pub columns: Vec<Column>,
    /// The number of rows currently stored.
    pub row_count: usize,
}

/// The model of a [`Table`]: its name, schema and rows.
pub struct TableV {
    pub name: Seq<char>,
    pub schema: Seq<ColumnDefV>,
    pub rows: Seq<Seq<ValueV>>,
}

impl View for Table {
    type V = TableV;

    open spec fn view(&self) -> TableV {
        TableV { name: self.name@, schema: self.schema@, rows: self.rows() }
    }
}

impl Table {
    /// Well-formedness: one storage column per schema entry, each agreeing
    /// with its definition and holding exactly `row_count` rows.
    pub open spec fn wf(self) -> bool {
        &&& self.columns@.len() == self.schema@.len()
        &&& forall|i: int|
            0 <= i < self.columns@.len() ==> {
                &&& (#[trigger] self.columns@[i]).wf()
                &&& self.columns@[i].name@ == self.schema@[i].name
                &&& self.columns@[i].data_type == self.schema@[i].data_type
                &&& self.columns@[i].len_spec() == self.row_count
            }
    }

    /// Row `r`, reconstructed across the columns in schema order.
    pub open spec fn row_at(self, r: int) -> Seq<ValueV> {
        Seq::new(self.columns@.len(), |c: int| self.columns@[c].values()[r])
    }

    /// All rows of the table, in storage order.
    pub open spec fn rows(self) -> Seq<Seq<ValueV>> {
        Seq::new(self.row_count as nat, |r: int| self.row_at(r))
    }

    /// Creates an empty table with the given name and schema.
    #[verifier::loop_isolation(false)]
    pub fn new(name: String, schema: Schema) -> (r: Table)
        ensures
            r.wf(),
            r.name@ == name@,
            r.schema@ == schema@,
            r.rows() == Seq::<Seq<ValueV>>::empty(),
    {
        let mut columns: Vec<Column> = Vec::new();
        let mut i: usize = 0;
        while i < schema.columns.len()
            invariant
                i <= schema.columns@.len(),
                columns@.len() == i,
                forall|j: int|
                    0 <= j < i as int ==> {
                        &&& (#[trigger] columns@[j]).wf()
                        &&& columns@[j].name@ == schema@[j].name
                        &&& columns@[j].data_type == schema@[j].data_type
                        &&& columns@[j].len_spec() == 0
                    },
            decreases schema.columns@.len() - i,
        {
            let def = &schema.columns[i];
            columns.push(Column::new(def.name.clone(), def.data_type));
            i = i + 1;
        }
        let r = Table { name, schema, columns, row_count: 0 };
        proof {
            assert(r.rows() =~= Seq::<Seq<ValueV>>::empty());
        }
        r
    }

    /// Appends one row.
    ///
    /// The row must be as wide as the schema and each non-NULL value must
    /// carry its column's type; the whole row is validated before any
    /// column is touched, so a failed insert leaves the table unchanged.
    #[verifier::loop_isolation(false)]
    pub fn insert(&mut self, values: Vec<Value>) -> (r: Result<(), String>)
        requires
            old(self).wf(),
            all_wf(views_of(values@)),
            bits_fit(old(self).row_count as nat),
        ensures
            final(self).wf(),
            final(self).name == old(self).name,
            final(self).schema == old(self).schema,
            match r {
                Ok(_) => {
                    &&& row_matches_schema(old(self).schema@, views_of(values@))
                    &&& final(self).rows() == old(self).rows().push(views_of(values@))
                    &&& final(self).row_count == old(self).row_count + 1
                },
                Err(_) => {
                    &&& !row_matches_schema(old(self).schema@, views_of(values@))
                    &&& *final(self) == *old(self)
                },
            },
    {
        if values.len() != self.schema.columns.len() {
            return Err(String::from_str(
                "the size of the row does not match the size of a table row",
            ));
        }

        let mut i: usize = 0;
        while i < values.len()
            invariant
                i <= values@.len(),
                forall|j: int|
                    0 <= j < i as int ==> (views_of(values@)[j] is Null || views_of(values@)[
                        j
                    ].spec_data_type() == Some(self.schema@[j].data_type)),
            decreases values@.len() - i,
        {
            let matches_type = match values[i].data_type() {
                Some(dt) => dt == self.schema.columns[i].data_type,
                None => true,
            };
            if !matches_type {
                proof {
                    assert(views_of(values@)[i as int] == values@[i as int]@);
                    assert(!row_matches_schema(self.schema@, views_of(values@)));
                }
                return Err(String::from_str(
                    "the type of a value does not match the schema column type",
                ));
            }
            i = i + 1;
        }

        let ghost vals = views_of(values@);
        let mut i: usize = 0;
        while i < values.len()
            invariant
                i <= values@.len(),
                values@.len() == self.schema.columns@.len(),
                self.name == old(self).name,
                self.schema == old(self).schema,
                self.row_count == old(self).row_count,
                self.columns@.len() == old(self).columns@.len(),
                old(self).wf(),
                vals == views_of(values@),
                all_wf(vals),
                bits_fit(old(self).row_count as nat),
                row_matches_schema(old(self).schema@, vals),
                forall|j: int|
                    i as int <= j < self.columns@.len() ==> self.columns@[j] == old(
                        self,
                    ).columns@[j],
                forall|j: int|
                    0 <= j < i as int ==> {
                        &&& (#[trigger] self.columns@[j]).wf()
                        &&& self.columns@[j].name == old(self).columns@[j].name
                        &&& self.columns@[j].data_type == old(self).columns@[j].data_type
                        &&& self.columns@[j].values() == old(self).columns@[j].values().push(
                            vals[j],
                        )
                    },
            decreases values@.len() - i,
        {
            let v = values[i].clone();
            proof {
                assert(vals[i as int] == values@[i as int]@);
                assert(vals[i as int].wf());
            }
            let res = self.columns[i].push(v);
            match res {
                Ok(_) => (),
                Err(_) => {
                    proof {
                        assert(false);
                    }
                    return Err(String::from_str(
                        "the type of a value does not match the schema column type",
                    ));
                },
            }
            i = i + 1;
        }
        self.row_count = self.row_count + 1;
        proof {
            assert(self.rows() =~~= old(self).rows().push(views_of(values@)));
        }
        Ok(())
    }

    /// Reconstructs the row at `row_idx`, value by value across the columns;
    /// `None` past the end.
    #[verifier::loop_isolation(false)]
    pub fn get_row(&self, row_idx: usize) -> (r: Option<Vec<Value>>)
        requires
            self.wf(),
        ensures
            match r {
                Some(row) => {
                    &&& row_idx < self.rows().len()
                    &&& views_of(row@) == self.rows()[row_idx as int]
                    &&& all_wf(views_of(row@))
                },
                None => row_idx >= self.rows().len(),
            },
    {
        if self.row_count <= row_idx {
            return None;
        }
        let mut row: Vec<Value> = Vec::new();
        let mut c: usize = 0;
        while c < self.columns.len()
            invariant
                self.wf(),
                row_idx < self.row_count,
                c <= self.columns@.len(),
                row@.len() == c,
                forall|j: int|
                    0 <= j < c as int ==> views_of(row@)[j] == self.row_at(row_idx as int)[j]
                        && (#[trigger] row@[j])@.wf(),
            decreases self.columns@.len() - c,
        {
            match self.columns[c].get(row_idx) {
                Some(v) => row.push(v),
                None => {
                    proof {
                        assert(false);
                    }
                    return None;
                },
            }
            c = c + 1;
        }
        proof {
            assert(views_of(row@) =~= self.rows()[row_idx as int]);
        }
        Some(row)
    }

    /// A reference to the first column carrying `name`, `None` when the
    /// table has no such column.
    pub fn get_col(&self, name: &str) -> (r: Option<&Column>)
        requires
            self.wf(),
        ensures
            match r {
                Some(c) => {
                    &&& col_index(self.schema@, name@) >= 0
                    &&& *c == self.columns@[col_index(self.schema@, name@)]
                },
                None => col_index(self.schema@, name@) == -1,
            },
    {
        match self.col_index_of(name) {
            Some(i) => Some(&self.columns[i]),
            None => None,
        }
    }

    /// A mutable reference to the first column carrying `name`, `None`
    /// when the table has no such column.
    ///
    /// While the caller keeps the column consistent, under its name, type
    /// and row count, the table stays well formed.
    pub fn get_col_mut(&mut self, name: &str) -> (r: Option<&mut Column>)
        requires
            old(self).wf(),
        ensures
            match r {
                Some(c) => {
                    &&& 0 <= col_index(old(self).schema@, name@) < old(self).columns@.len()
                    &&& *c == old(self).columns@[col_index(old(self).schema@, name@)]
                    &&& final(self).name == old(self).name
                    &&& final(self).schema == old(self).schema
                    &&& final(self).row_count == old(self).row_count
                    &&& final(self).columns@ == old(self).columns@.update(
                        col_index(old(self).schema@, name@),
                        *final(c),
                    )
                },
                None => {
                    &&& col_index(old(self).schema@, name@) == -1
                    &&& *final(self) == *old(self)
                },
            },
    {
        match self.col_index_of(name) {
            Some(i) => Some(&mut self.columns[i]),
            None => None,
        }
    }

    /// Position of the first column carrying `name`, `None` when absent.
    #[verifier::loop_isolation(false)]
    pub fn col_index_of(&self, name: &str) -> (r: Option<usize>)
        requires
            self.wf(),
        ensures
            match r {
                Some(i) => i as int == col_index(self.schema@, name@) && i
                    < self.columns@.len(),
                None => col_index(self.schema@, name@) == -1,
            },
    {
        let mut i: usize = 0;
        while i < self.columns.len()
            invariant
                self.wf(),
                i <= self.columns@.len(),
                col_index(self.schema@, name@) == col_index_from(self.schema@, name@, i as nat),
            decreases self.columns@.len() - i,
        {
            if str_eq(self.columns[i].name.as_str(), name) {
                return Some(i);
            }
            i = i + 1;
        }
        None
    }

    /// Removes the row at `row_idx` from every column.
    #[verifier::loop_isolation(false)]
    pub fn delete_row(&mut self, row_idx: usize) -> (r: Result<(), String>)
        requires
            old(self).wf(),
        ensures
            final(self).wf(),
            final(self).name == old(self).name,
            final(self).schema == old(self).schema,
            match r {
                Ok(_) => {
                    &&& row_idx < old(self).rows().len()
                    &&& final(self).rows() == old(self).rows().remove(row_idx as int)
                    &&& final(self).row_count == old(self).row_count - 1
                },
                Err(_) => {
                    &&& row_idx >= old(self).rows().len()
                    &&& *final(self) == *old(self)
                },
            },
    {
        if self.row_count <= row_idx {
            return Err(String::from_str("The row index is too high"));
        }
        let mut c: usize = 0;
        while c < self.columns.len()
            invariant
                row_idx < old(self).row_count,
                c <= self.columns@.len(),
                self.name == old(self).name,
                self.schema == old(self).schema,
                self.row_count == old(self).row_count,
                self.columns@.len() == old(self).columns@.len(),
                old(self).wf(),
                forall|j: int|
                    c as int <= j < self.columns@.len() ==> self.columns@[j] == old(
                        self,
                    ).columns@[j],
                forall|j: int|
                    0 <= j < c as int ==> {
                        &&& (#[trigger] self.columns@[j]).wf()
                        &&& self.columns@[j].name == old(self).columns@[j].name
                        &&& self.columns@[j].data_type == old(self).columns@[j].data_type
                        &&& self.columns@[j].values() == old(self).columns@[j].values().remove(
                            row_idx as int,
                        )
                    },
            decreases self.columns@.len() - c,
        {
            let res = self.columns[c].remove(row_idx);
            match res {
                Ok(_) => (),
                Err(_) => {
                    proof {
                        assert(false);
                    }
                    return Err(String::from_str("The row index is too high"));
                },
            }
            c = c + 1;
        }
        self.row_count = self.row_count - 1;
        proof {
            assert(self.rows() =~~= old(self).rows().remove(row_idx as int));
        }
        Ok(())
    }

    /// Overwrites one cell: the value at row `row_idx` of column `col_idx`.
    pub fn set_value(&mut self, col_idx: usize, row_idx: usize, value: &Value) -> (r: Result<
        (),
        String,
    >)
        requires
            old(self).wf(),
            value@.wf(),
        ensures
            final(self).wf(),
            final(self).name == old(self).name,
            final(self).schema == old(self).schema,
            final(self).row_count == old(self).row_count,
            match r {
                Ok(_) => {
                    &&& col_idx < old(self).schema@.len()
                    &&& row_idx < old(self).rows().len()
                    &&& (value@ is Null || value@.spec_data_type() == Some(
                        old(self).schema@[col_idx as int].data_type,
                    ))
                    &&& final(self).rows() == old(self).rows().update(
                        row_idx as int,
                        old(self).rows()[row_idx as int].update(col_idx as int, value@),
                    )
                },
                Err(_) => {
                    &&& (col_idx >= old(self).schema@.len() || row_idx >= old(self).rows().len()
                        || (!(value@ is Null) && value@.spec_data_type() != Some(
                        old(self).schema@[col_idx as int].data_type,
                    )))
                    &&& *final(self) == *old(self)
                },
            },
    {
        if col_idx >= self.columns.len() {
            return Err(String::from_str("the column index is too high"));
        }
        if row_idx >= self.row_count {
            return Err(String::from_str("The row index is too high"));
        }
        let matches_type = value.is_null() || (match value.data_type() {
            Some(dt) => dt == self.columns[col_idx].data_type,
            None => true,
        });
        if !matches_type {
            return Err(String::from_str("value type does not match the column data type"));
        }
        let res = self.columns[col_idx].set(row_idx, value);
        match res {
            Ok(_) => {
                proof {
                    assert forall|j: int|
                        0 <= j < self.columns@.len() implies {
                        &&& (#[trigger] self.columns@[j]).wf()
                        &&& self.columns@[j].name@ == self.schema@[j].name
                        &&& self.columns@[j].data_type == self.schema@[j].data_type
                        &&& self.columns@[j].len_spec() == self.row_count
                    } by {
                        if j != col_idx as int {
                            assert(self.columns@[j] == old(self).columns@[j]);
                        } else {
                            assert(old(self).columns@[j].wf());
                            assert(self.columns@[j].values().len() == self.columns@[
                                j
                            ].len_spec());
                            assert(old(self).columns@[j].values().len() == old(self).columns@[
                                j
                            ].len_spec());
                        }
                    }
                    assert(self.rows() =~~= old(self).rows().update(
                        row_idx as int,
                        old(self).rows()[row_idx as int].update(col_idx as int, value@),
                    ));
                }
                Ok(())
            },
            Err(e) => {
                proof {
                    assert(false);
                }
                Err(e)
            },
        }
    }
}

} // verus!
