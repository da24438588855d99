use vstd::prelude::*;

verus! {

/// Mathematical model of one tagged operand value: the integer it holds, or
/// the character sequence of its text.  Contracts speak of stacks as
/// sequences of these.
pub enum AbstractValue {
    Int(int),
    Text(Seq<char>),
}

/// One tagged value on the operand stack: the tagged-union representation
/// behind the typed accessors.  An accessor pops a value only when its tag
/// matches the requested type.
#[derive(Debug, Clone, PartialEq, Eq)]
pub enum Value {
    /// A signed 64-bit integer operand.
    Int(i64),
    /// A text operand.
    Text(String),
}

impl View for Value {
    type V = AbstractValue;

    open spec fn view(&self) -> AbstractValue {
        match self {
            Value::Int(n) => AbstractValue::Int(*n as int),
            Value::Text(s) => AbstractValue::Text(s@),
        }
    }
}

} // verus!
