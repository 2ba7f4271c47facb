use vstd::prelude::*;

verus! {

/// A decoded tree value: the shape of object bodies and of query results.
#[derive(Debug, PartialEq)]
pub enum Value {
    Null,
    Bool(bool),
    Int(i64),
    /// A number that is not an integer, kept in its decimal text.
    Num(String),
    Str(String),
    Arr(Vec<Value>),
    /// Entries in insertion order.
    Obj(Vec<(String, Value)>),
}

} // verus!
