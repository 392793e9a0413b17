//! Typed cell values of a decoded statement file, and lookup of a cell by column name.

use vstd::prelude::*;

verus! {

/// Resolution of a timestamp or duration held by a cell.
#[derive(Clone, Copy, PartialEq, Eq, Debug)]
pub enum TimeUnit {
    Milliseconds,
    Nanoseconds,
}

/// One decoded cell of a statement file.
///
/// A floating-point cell is held as the 64 bits of its IEEE 754 double-precision
/// encoding, so that every cell is made of integers and text only.
#[derive(PartialEq, Eq, Debug)]
pub enum Cell {
    Int(i64),
    Float(u64),
    Str(String),
    Bool(bool),
    Datetime(i64, TimeUnit),
    Duration(i64),
    Null,
}

/// Mathematical value of a [`Cell`]: the same cases, with text as a sequence of characters.
pub ghost enum Value {
    Int(i64),
    Float(u64),
    Str(Seq<char>),
    Bool(bool),
    Datetime(i64, TimeUnit),
    Duration(i64),
    Null,
}

impl View for Cell {
    type V = Value;

    open spec fn view(&self) -> Value {
        match *self {
            Cell::Int(v) => Value::Int(v),
            Cell::Float(bits) => Value::Float(bits),
            Cell::Str(s) => Value::Str(s@),
            Cell::Bool(b) => Value::Bool(b),
            Cell::Datetime(t, unit) => Value::Datetime(t, unit),
            Cell::Duration(d) => Value::Duration(d),
            Cell::Null => Value::Null,
        }
    }
}

impl DeepView for Cell {
    type V = Value;

    open spec fn deep_view(&self) -> Value {
        self@
    }
}

impl Clone for Cell {
    fn clone(&self) -> (r: Cell)
        ensures
            r@ == self@,
    {
        match self {
            Cell::Int(v) => Cell::Int(*v),
            Cell::Float(bits) => Cell::Float(*bits),
            Cell::Str(s) => Cell::Str(s.clone()),
            Cell::Bool(b) => Cell::Bool(*b),
            Cell::Datetime(t, unit) => Cell::Datetime(*t, *unit),
            Cell::Duration(d) => Cell::Duration(*d),
            Cell::Null => Cell::Null,
        }
    }
}

impl Cell {
    /// Whether two cells hold the same value: same case, same payload.
    pub fn same(&self, other: &Cell) -> (r: bool)
        ensures
            r == (self@ == other@),
    {
        match (self, other) {
            (Cell::Int(a), Cell::Int(b)) => *a == *b,
            (Cell::Float(a), Cell::Float(b)) => *a == *b,
            (Cell::Str(a), Cell::Str(b)) => *a == *b,
            (Cell::Bool(a), Cell::Bool(b)) => *a == *b,
            (Cell::Datetime(a, ua), Cell::Datetime(b, ub)) => {
                let same_unit = match (ua, ub) {
                    (TimeUnit::Milliseconds, TimeUnit::Milliseconds) => true,
                    (TimeUnit::Nanoseconds, TimeUnit::Nanoseconds) => true,
                    _ => false,
                };
                *a == *b && same_unit
            },
            (Cell::Duration(a), Cell::Duration(b)) => *a == *b,
            (Cell::Null, Cell::Null) => true,
            _ => false,
        }
    }

    /// Whether the cell is text or null, the only values a text column of the unified table holds.
    pub fn is_text_or_null(&self) -> (r: bool)
        ensures
            r == text_or_null(self@),
    {
        match self {
            Cell::Str(_) => true,
            Cell::Null => true,
            _ => false,
        }
    }
}

/// A value that a text column accepts.
pub open spec fn text_or_null(v: Value) -> bool {
    v is Str || v is Null
}

/// A decoded file: the column names in file order (repeats allowed) and the data rows.
/// A row shorter than the header lacks its last cells; they read as null.
pub struct RawTable {
    pub header: Vec<String>,
    pub rows: Vec<Vec<Cell>>,
}

/// Value of the column `name` in `row`: the cell under the first header entry equal to
/// `name`, null where the header has no such entry or the row ends before it.
pub open spec fn field(names: Seq<Seq<char>>, row: Seq<Value>, name: Seq<char>) -> Value {
    match names.index_of_first(name) {
        Some(i) => if i < row.len() {
            row[i]
        } else {
            Value::Null
        },
        None => Value::Null,
    }
}

/// Index of the first header entry equal to `name`.
pub fn column_index(header: &[String], name: &str) -> (r: Option<usize>)
    ensures
        match r {
            Some(i) => header.deep_view().index_of_first(name@) == Some(i as int),
            None => header.deep_view().index_of_first(name@) is None,
        },
{
    let wanted = name.to_owned();
    let mut i: usize = 0;
    while i < header.len()
        invariant
            i <= header.len(),
            wanted@ == name@,
            forall|j: int| 0 <= j < i ==> header.deep_view()[j] != name@,
        decreases header.len() - i,
    {
        if header[i] == wanted {
            proof {
                assert(header.deep_view()[i as int] == name@);
                header.deep_view().index_of_first_ensures(name@);
            }
            return Some(i);
        }
        i += 1;
    }
    proof {
        header.deep_view().index_of_first_ensures(name@);
    }
    None
}

/// Copy of the cell of `row` under the column `name`.
pub fn lookup(header: &[String], row: &[Cell], name: &str) -> (r: Cell)
    ensures
        r@ == field(header.deep_view(), row.deep_view(), name@),
{
    match column_index(header, name) {
        Some(i) => {
            if i < row.len() {
                row[i].clone()
            } else {
                Cell::Null
            }
        },
        None => Cell::Null,
    }
}

} // verus!
