use vstd::prelude::*;

use core::cmp::Ordering;

use crate::data_type::DataType;
use crate::decimal::Decimal;
use vstd::string::StrSliceExecFns;

verus! {

/// A single data value stored in the database, including SQL `NULL`.
#[derive(Debug, PartialEq)]
pub enum Value {
    /// An empty or missing value.
    Null,
    /// A 64-bit signed integer value.
    Int(i64),
    /// An exact decimal value (the FLOAT column payload).
    Float(Decimal),
    /// A character string value.
    Text(String),
    /// A boolean value.
    Bool(bool),
}

/// The mathematical model of a [`Value`]: text is a sequence of characters.
pub enum ValueV {
    Null,
    Int(i64),
    Float(Decimal),
    Text(Seq<char>),
    Bool(bool),
}

impl View for Value {
    type V = ValueV;

    open spec fn view(&self) -> ValueV {
        match self {
            Value::Null => ValueV::Null,
            Value::Int(i) => ValueV::Int(*i),
            Value::Float(d) => ValueV::Float(*d),
            Value::Text(s) => ValueV::Text(s@),
            Value::Bool(b) => ValueV::Bool(*b),
        }
    }
}

impl ValueV {
    /// Any decimal payload is small enough to compare.
    pub open spec fn wf(self) -> bool {
        match self {
            ValueV::Float(d) => d.wf(),
            _ => true,
        }
    }

    /// The logical type of a value, none for `Null`.
    pub open spec fn spec_data_type(self) -> Option<DataType> {
        match self {
            ValueV::Null => None,
            ValueV::Int(_) => Some(DataType::Int),
            ValueV::Float(_) => Some(DataType::Float),
            ValueV::Text(_) => Some(DataType::Text),
            ValueV::Bool(_) => Some(DataType::Bool),
        }
    }
}

impl Clone for Value {
    fn clone(&self) -> (res: Self)
        ensures
            res == *self,
    {
        match self {
            Value::Null => Value::Null,
            Value::Int(i) => Value::Int(*i),
            Value::Float(d) => Value::Float(*d),
            Value::Text(s) => Value::Text(s.clone()),
            Value::Bool(b) => Value::Bool(*b),
        }
    }
}

impl Value {
    /// True exactly on [`Value::Null`].
    pub fn is_null(&self) -> (r: bool)
        ensures
            r == (self@ is Null),
    {
        matches!(self, Value::Null)
    }

    /// The inner integer, if this is a [`Value::Int`].
    pub fn as_int(&self) -> (r: Option<i64>)
        ensures
            match r {
                Some(i) => self@ == ValueV::Int(i),
                None => !(self@ is Int),
            },
    {
        match self {
            Value::Int(i) => Some(*i),
            _ => None,
        }
    }

    /// The inner decimal, if this is a [`Value::Float`].
    pub fn as_float(&self) -> (r: Option<Decimal>)
        ensures
            match r {
                Some(d) => self@ == ValueV::Float(d),
                None => !(self@ is Float),
            },
    {
        match self {
            Value::Float(d) => Some(*d),
            _ => None,
        }
    }

    /// The inner string slice, if this is a [`Value::Text`].
    pub fn as_str(&self) -> (r: Option<&str>)
        ensures
            match r {
                Some(s) => self@ == ValueV::Text(s@),
                None => !(self@ is Text),
            },
    {
        match self {
            Value::Text(s) => Some(s.as_str()),
            _ => None,
        }
    }

    /// The inner boolean, if this is a [`Value::Bool`].
    pub fn as_bool(&self) -> (r: Option<bool>)
        ensures
            match r {
                Some(b) => self@ == ValueV::Bool(b),
                None => !(self@ is Bool),
            },
    {
        match self {
            Value::Bool(b) => Some(*b),
            _ => None,
        }
    }

    /// The logical [`DataType`] of this value, `None` for an untyped `Null`.
    pub fn data_type(&self) -> (r: Option<DataType>)
        ensures
            r == self@.spec_data_type(),
    {
        match self {
            Value::Null => None,
            Value::Int(_) => Some(DataType::Int),
            Value::Float(_) => Some(DataType::Float),
            Value::Text(_) => Some(DataType::Text),
            Value::Bool(_) => Some(DataType::Bool),
        }
    }
}

/// Three-way comparison of character sequences, code point by code point,
/// starting at position `i`; a proper prefix sorts first.
pub open spec fn seq_cmp_from(a: Seq<char>, b: Seq<char>, i: nat) -> Ordering
    decreases a.len() - i,
{
    if i >= a.len() && i >= b.len() {
        Ordering::Equal
    } else if i >= a.len() {
        Ordering::Less
    } else if i >= b.len() {
        Ordering::Greater
    } else if (a[i as int] as u32) < (b[i as int] as u32) {
        Ordering::Less
    } else if (b[i as int] as u32) < (a[i as int] as u32) {
        Ordering::Greater
    } else {
        seq_cmp_from(a, b, i + 1)
    }
}

/// Lexicographic order on character sequences.
pub open spec fn seq_cmp(a: Seq<char>, b: Seq<char>) -> Ordering {
    seq_cmp_from(a, b, 0)
}

/// Lexicographic three-way comparison of two strings.
pub fn str_cmp(a: &str, b: &str) -> (r: Ordering)
    ensures
        r == seq_cmp(a@, b@),
{
    let la: usize = a.unicode_len();
    let lb: usize = b.unicode_len();
    let mut i: usize = 0;
    while i < la && i < lb
        invariant
            i <= la,
            i <= lb,
            la == a@.len(),
            lb == b@.len(),
            seq_cmp(a@, b@) == seq_cmp_from(a@, b@, i as nat),
        decreases la - i,
    {
        let ca: char = a.get_char(i);
        let cb: char = b.get_char(i);
        if (ca as u32) < (cb as u32) {
            return Ordering::Less;
        }
        if (cb as u32) < (ca as u32) {
            return Ordering::Greater;
        }
        i = i + 1;
    }
    if la < lb {
        Ordering::Less
    } else if lb < la {
        Ordering::Greater
    } else {
        Ordering::Equal
    }
}

/// Character-for-character string equality.
pub fn str_eq(a: &str, b: &str) -> (r: bool)
    ensures
        r == (a@ == b@),
{
    let la: usize = a.unicode_len();
    let lb: usize = b.unicode_len();
    if la != lb {
        return false;
    }
    let mut i: usize = 0;
    while i < la
        invariant
            i <= la,
            la == a@.len(),
            la == b@.len(),
            forall|j: int| 0 <= j < i as int ==> a@[j] == b@[j],
        decreases la - i,
    {
        let ca: char = a.get_char(i);
        let cb: char = b.get_char(i);
        if ca != cb {
            return false;
        }
        i = i + 1;
    }
    proof {
        assert(a@ =~= b@);
    }
    true
}

/// The views of a sequence of values.
pub open spec fn views_of(s: Seq<Value>) -> Seq<ValueV> {
    s.map_values(|v: Value| v@)
}

/// Every value of the sequence is well formed.
pub open spec fn all_wf(s: Seq<ValueV>) -> bool {
    forall|i: int| 0 <= i < s.len() ==> s[i].wf()
}

/// Position of a value's variant in the engine's total order on values.
pub open spec fn rank(v: ValueV) -> int {
    match v {
        ValueV::Null => 0,
        ValueV::Int(_) => 1,
        ValueV::Float(_) => 2,
        ValueV::Text(_) => 3,
        ValueV::Bool(_) => 4,
    }
}

/// The total order on values used by `ORDER BY`: values of different
/// variants order by variant, equal variants by their payload.
pub open spec fn value_cmp_spec(a: ValueV, b: ValueV) -> Ordering {
    if rank(a) < rank(b) {
        Ordering::Less
    } else if rank(b) < rank(a) {
        Ordering::Greater
    } else {
        match (a, b) {
            (ValueV::Int(x), ValueV::Int(y)) => if x < y {
                Ordering::Less
            } else if y < x {
                Ordering::Greater
            } else {
                Ordering::Equal
            },
            (ValueV::Float(x), ValueV::Float(y)) => if x.spec_lt(y) {
                Ordering::Less
            } else if y.spec_lt(x) {
                Ordering::Greater
            } else {
                Ordering::Equal
            },
            (ValueV::Text(x), ValueV::Text(y)) => seq_cmp(x, y),
            (ValueV::Bool(x), ValueV::Bool(y)) => if x == y {
                Ordering::Equal
            } else if !x {
                Ordering::Less
            } else {
                Ordering::Greater
            },
            _ => Ordering::Equal,
        }
    }
}

/// Three-way comparison of two values under the engine's total order.
pub fn value_cmp(a: &Value, b: &Value) -> (r: Ordering)
    requires
        a@.wf(),
        b@.wf(),
    ensures
        r == value_cmp_spec(a@, b@),
{
    match (a, b) {
        (Value::Null, Value::Null) => Ordering::Equal,
        (Value::Int(x), Value::Int(y)) => {
            if x < y {
                Ordering::Less
            } else if y < x {
                Ordering::Greater
            } else {
                Ordering::Equal
            }
        },
        (Value::Float(x), Value::Float(y)) => x.cmp_dec(y),
        (Value::Text(x), Value::Text(y)) => str_cmp(x.as_str(), y.as_str()),
        (Value::Bool(x), Value::Bool(y)) => {
            if x == y {
                Ordering::Equal
            } else if !*x {
                Ordering::Less
            } else {
                Ordering::Greater
            }
        },
        _ => {
            let ra: u8 = rank_of(a);
            let rb: u8 = rank_of(b);
            if ra < rb {
                Ordering::Less
            } else {
                Ordering::Greater
            }
        },
    }
}

/// The variant rank of a value, as a machine word.
fn rank_of(v: &Value) -> (r: u8)
    ensures
        r as int == rank(v@),
{
    match v {
        Value::Null => 0,
        Value::Int(_) => 1,
        Value::Float(_) => 2,
        Value::Text(_) => 3,
        Value::Bool(_) => 4,
    }
}

} // verus!
