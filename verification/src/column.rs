use vstd::prelude::*;

use crate::bits::{bit_seq, bits_fit, Bits};
use crate::data_type::DataType;
use crate::decimal::Decimal;
use crate::value::{Value, ValueV};
use vstd::string::StringExecFns;

verus! {

/// Physical storage of one column: a contiguous buffer of the column's type.
pub enum ColumnData {
    /// Integer buffer.
    Int(Vec<i64>),
    /// Decimal buffer (FLOAT columns).
    Float(Vec<Decimal>),
    /// String buffer.
    Text(Vec<String>),
    /// Bit buffer (BOOL columns).
    Bool(Bits),
}

/// A column of a table: metadata, the typed buffer, and the null bitmap.
///
/// A `true` bit in the null bitmap marks the row as NULL; the buffer then
/// holds a placeholder at that index so both stay the same length.
pub struct Column {
    /// The column's name.
    pub name: String,
    /// The column's logical type.
    pub data_type: DataType,
    /// The values, stored contiguously.
    pub data: ColumnData,
    /// One bit per row; `true` means the row is NULL.
    pub null_bitmap: Bits,
}

impl Column {
    /// The null bitmap's contents.
    pub open spec fn bits(self) -> Seq<bool> {
        bit_seq(self.null_bitmap)
    }

    /// The typed buffer's length.
    pub open spec fn data_len(self) -> nat {
        match self.data {
            ColumnData::Int(v) => v@.len(),
            ColumnData::Float(v) => v@.len(),
            ColumnData::Text(v) => v@.len(),
            ColumnData::Bool(v) => bit_seq(v).len(),
        }
    }

    /// The buffer variant agrees with the declared type.
    pub open spec fn type_matches(self) -> bool {
        match self.data {
            ColumnData::Int(_) => self.data_type == DataType::Int,
            ColumnData::Float(_) => self.data_type == DataType::Float,
            ColumnData::Text(_) => self.data_type == DataType::Text,
            ColumnData::Bool(_) => self.data_type == DataType::Bool,
        }
    }

    /// Well-formedness: the typed buffer and the null bitmap always have the
    /// same length, the buffer variant matches the declared type, and every
    /// stored decimal is comparable.
    pub open spec fn wf(self) -> bool {
        &&& self.data_len() == self.bits().len()
        &&& self.type_matches()
        &&& match self.data {
            ColumnData::Float(v) => forall|i: int| 0 <= i < v@.len() ==> v@[i].wf(),
            _ => true,
        }
    }

    /// The number of rows (the bitmap's length).
    pub open spec fn len_spec(self) -> nat {
        self.bits().len()
    }

    /// The logical value of row `i`: NULL where the bitmap says so, the
    /// buffer's entry otherwise.
    pub open spec fn value_at(self, i: int) -> ValueV {
        if self.bits()[i] {
            ValueV::Null
        } else {
            match self.data {
                ColumnData::Int(v) => ValueV::Int(v@[i]),
                ColumnData::Float(v) => ValueV::Float(v@[i]),
                ColumnData::Text(v) => ValueV::Text(v@[i]@),
                ColumnData::Bool(v) => ValueV::Bool(bit_seq(v)[i]),
            }
        }
    }

    /// The column's logical contents, row by row.
    pub open spec fn values(self) -> Seq<ValueV> {
        Seq::new(self.len_spec(), |i: int| self.value_at(i))
    }

    /// Creates an empty column of the given name and type.
    pub fn new(name: String, data_type: DataType) -> (r: Column)
        ensures
            r.wf(),
            r.name@ == name@,
            r.data_type == data_type,
            r.values() == Seq::<ValueV>::empty(),
            r.len_spec() == 0,
    {
        let data = match data_type {
            DataType::Int => ColumnData::Int(Vec::new()),
            DataType::Float => ColumnData::Float(Vec::new()),
            DataType::Text => ColumnData::Text(Vec::new()),
            DataType::Bool => ColumnData::Bool(Bits::new()),
        };
        let r = Column { name, data_type, data, null_bitmap: Bits::new() };
        proof {
            assert(r.values() =~= Seq::<ValueV>::empty());
        }
        r
    }

    /// The number of rows currently stored.
    pub fn len(&self) -> (r: usize)
        ensures
            r == self.len_spec(),
    {
        self.null_bitmap.len()
    }

    /// True when the column holds no row.
    pub fn is_empty(&self) -> (r: bool)
        ensures
            r == (self.len_spec() == 0),
    {
        self.len() == 0
    }

    /// Appends one value.
    ///
    /// A `Null` pushes a placeholder into the buffer and sets the new bitmap
    /// bit; any other value must match the column's type, or the column is
    /// left unchanged and an error is returned.
    pub fn push(&mut self, value: Value) -> (r: Result<(), String>)
        requires
            old(self).wf(),
            value@.wf(),
            bits_fit(old(self).len_spec()),
        ensures
            final(self).wf(),
            final(self).name == old(self).name,
            final(self).data_type == old(self).data_type,
            match r {
                Ok(_) => {
                    &&& final(self).values() == old(self).values().push(value@)
                    &&& (value@ is Null || value@.spec_data_type() == Some(old(self).data_type))
                },
                Err(_) => {
                    &&& *final(self) == *old(self)
                    &&& !(value@ is Null)
                    &&& value@.spec_data_type() != Some(old(self).data_type)
                },
            },
    {
        if value.is_null() {
            self.null_bitmap.push(true);
            match &mut self.data {
                ColumnData::Int(col) => col.push(0),
                ColumnData::Float(col) => col.push(Decimal::new(0, 0)),
                ColumnData::Text(col) => col.push(String::new()),
                ColumnData::Bool(col) => col.push(false),
            }
            proof {
                assert(self.values() =~= old(self).values().push(value@));
            }
            return Ok(());
        }

        let matches_type = match value.data_type() {
            Some(dt) => dt == self.data_type,
            None => true,
        };
        if !matches_type {
            return Err(String::from_str("value type does not match the column data type"));
        }

        self.null_bitmap.push(false);
        match (&mut self.data, value) {
            (ColumnData::Int(col), Value::Int(v)) => col.push(v),
            (ColumnData::Float(col), Value::Float(v)) => col.push(v),
            (ColumnData::Text(col), Value::Text(v)) => col.push(v),
            (ColumnData::Bool(col), Value::Bool(v)) => col.push(v),
            _ => {
                proof {
                    assert(false);
                }
                return Err(String::from_str("value type does not match the column data type"));
            },
        }
        proof {
            assert(self.values() =~= old(self).values().push(value@));
        }
        Ok(())
    }

    /// Reads the value at `row_idx`; `None` past the end, `Null` where the
    /// bitmap says so.
    pub fn get(&self, row_idx: usize) -> (r: Option<Value>)
        requires
            self.wf(),
        ensures
            match r {
                Some(v) => {
                    &&& row_idx < self.len_spec()
                    &&& v@ == self.values()[row_idx as int]
                    &&& v@.wf()
                },
                None => row_idx >= self.len_spec(),
            },
    {
        if row_idx >= self.len() {
            return None;
        }
        if self.null_bitmap.get(row_idx) {
            return Some(Value::Null);
        }
        match &self.data {
            ColumnData::Int(col) => Some(Value::Int(col[row_idx])),
            ColumnData::Float(col) => Some(Value::Float(col[row_idx])),
            ColumnData::Text(col) => Some(Value::Text(col[row_idx].clone())),
            ColumnData::Bool(col) => Some(Value::Bool(col.get(row_idx))),
        }
    }

    /// Removes the row at `row_idx` from the buffer and the bitmap, shifting
    /// later rows down by one.
    pub fn remove(&mut self, row_idx: usize) -> (r: Result<(), String>)
        requires
            old(self).wf(),
        ensures
            final(self).wf(),
            final(self).name == old(self).name,
            final(self).data_type == old(self).data_type,
            match r {
                Ok(_) => {
                    &&& row_idx < old(self).len_spec()
                    &&& final(self).values() == old(self).values().remove(row_idx as int)
                },
                Err(_) => {
                    &&& row_idx >= old(self).len_spec()
                    &&& *final(self) == *old(self)
                },
            },
    {
        if self.len() <= row_idx {
            return Err(String::from_str("The row index is too high"));
        }
        match &mut self.data {
            ColumnData::Int(col) => {
                let _ = col.remove(row_idx);
            },
            ColumnData::Float(col) => {
                let _ = col.remove(row_idx);
            },
            ColumnData::Text(col) => {
                let _ = col.remove(row_idx);
            },
            ColumnData::Bool(col) => col.remove(row_idx),
        }
        self.null_bitmap.remove(row_idx);
        proof {
            assert(self.values() =~= old(self).values().remove(row_idx as int));
        }
        Ok(())
    }

    /// Replaces the value at `row_idx` in place.
    ///
    /// Setting `Null` only raises the bitmap bit and leaves the buffer
    /// untouched; the bitmap is checked first on every read, so the row
    /// reads back as `Null` all the same.
    pub fn set(&mut self, row_idx: usize, value: &Value) -> (r: Result<(), String>)
        requires
            old(self).wf(),
            value@.wf(),
        ensures
            final(self).wf(),
            final(self).name == old(self).name,
            final(self).data_type == old(self).data_type,
            match r {
                Ok(_) => {
                    &&& row_idx < old(self).len_spec()
                    &&& (value@ is Null || value@.spec_data_type() == Some(old(self).data_type))
                    &&& final(self).values() == old(self).values().update(row_idx as int, value@)
                },
                Err(_) => {
                    &&& (row_idx >= old(self).len_spec() || (!(value@ is Null)
                        && value@.spec_data_type() != Some(old(self).data_type)))
                    &&& *final(self) == *old(self)
                },
            },
    {
        if self.len() <= row_idx {
            return Err(String::from_str("The row index is too high"));
        }

        if value.is_null() {
            self.null_bitmap.set(row_idx, true);
            proof {
                assert(self.values() =~= old(self).values().update(
                    row_idx as int,
                    ValueV::Null,
                ));
            }
            return Ok(());
        }

        let matches_type = match value.data_type() {
            Some(dt) => dt == self.data_type,
            None => true,
        };
        if !matches_type {
            return Err(String::from_str("value type does not match the column data type"));
        }

        self.null_bitmap.set(row_idx, false);
        match (&mut self.data, value) {
            (ColumnData::Int(col), Value::Int(v)) => {
                col[row_idx] = *v;
            },
            (ColumnData::Float(col), Value::Float(v)) => {
                col[row_idx] = *v;
            },
            (ColumnData::Text(col), Value::Text(v)) => {
                col[row_idx] = v.clone();
            },
            (ColumnData::Bool(col), Value::Bool(v)) => col.set(row_idx, *v),
            _ => {
                proof {
                    assert(false);
                }
                return Err(String::from_str("value type does not match the column data type"));
            },
        }
        proof {
            assert(self.values() =~= old(self).values().update(row_idx as int, value@));
        }
        Ok(())
    }
}

/// Schema round-trip: after a push, the last slot of the column's contents
/// holds exactly the pushed value, which is what [`Column::get`] returns for
/// that row.
pub proof fn lemma_push_round_trip(before: Seq<ValueV>, after: Seq<ValueV>, v: ValueV)
    requires
        after == before.push(v),
    ensures
        after.len() == before.len() + 1,
        after[after.len() - 1] == v,
{
}

/// Null placeholder invariant: in every well-formed column - and each
/// operation above both demands and re-establishes well-formedness - the
/// typed buffer and the null bitmap have the same length, so a NULL always
/// occupies a placeholder slot and indices stay aligned.
pub proof fn lemma_buffer_bitmap_aligned(c: Column)
    requires
        c.wf(),
    ensures
        c.data_len() == c.bits().len(),
{
}

} // verus!
