//! Run-time values and run-time errors.
use vstd::prelude::*;
use crate::text::{decimal, push_str, string_of};

verus! {

/// A value computed at run time. `Comment` exists for statement values that
/// the language does not produce yet; evaluation never yields one.
#[derive(Debug)]
pub enum Value {
    Int(i64),
    Str(String),
    Comment(String),
    Bool(bool),
}

/// Model of a value.
pub enum ValueV {
    Int(i64),
    Str(Seq<char>),
    Comment(Seq<char>),
    Bool(bool),
}

impl View for Value {
    type V = ValueV;

    open spec fn view(&self) -> ValueV {
        match self {
            Value::Int(n) => ValueV::Int(*n),
            Value::Str(s) => ValueV::Str(s@),
            Value::Comment(s) => ValueV::Comment(s@),
            Value::Bool(b) => ValueV::Bool(*b),
        }
    }
}

/// Truthiness: a boolean is itself, an integer is true when it is not zero,
/// and a string is true when it is empty.
pub open spec fn truthy(v: ValueV) -> bool {
    match v {
        ValueV::Bool(b) => b,
        ValueV::Int(n) => n != 0,
        ValueV::Str(s) => s.len() == 0,
        ValueV::Comment(_) => false,
    }
}

/// The textual form of a value: integers in decimal, booleans as `true` or
/// `false`, strings as they are.
pub open spec fn value_text(v: ValueV) -> Seq<char> {
    match v {
        ValueV::Int(n) => decimal(n as int),
        ValueV::Str(s) => s,
        ValueV::Comment(s) => s,
        ValueV::Bool(b) => if b {
            "true"@
        } else {
            "false"@
        },
    }
}

/// Values of the same variant with the same contents are equal; values of
/// different variants never are.
pub open spec fn same_value(a: ValueV, b: ValueV) -> bool {
    a == b
}

/// Why a run stopped.
#[derive(Debug, PartialEq)]
pub enum RuntimeError {
    /// An operand of arithmetic or of a comparison is not an integer.
    ExpectedNumber,
    /// A name that was never set.
    Undefined(String),
    /// `pop` with nothing on the stack.
    EmptyStack,
    /// `set pop ...`.
    ReservedIdentifier,
    DivisionByZero,
    /// A result beyond the range of `i64`.
    Overflow,
    /// An operator that cannot stand where it does in the tree.
    BadOperator,
}

/// Model of a run-time error.
pub enum Fault {
    ExpectedNumber,
    Undefined(Seq<char>),
    EmptyStack,
    ReservedIdentifier,
    DivisionByZero,
    Overflow,
    BadOperator,
}

impl View for RuntimeError {
    type V = Fault;

    open spec fn view(&self) -> Fault {
        match self {
            RuntimeError::ExpectedNumber => Fault::ExpectedNumber,
            RuntimeError::Undefined(s) => Fault::Undefined(s@),
            RuntimeError::EmptyStack => Fault::EmptyStack,
            RuntimeError::ReservedIdentifier => Fault::ReservedIdentifier,
            RuntimeError::DivisionByZero => Fault::DivisionByZero,
            RuntimeError::Overflow => Fault::Overflow,
            RuntimeError::BadOperator => Fault::BadOperator,
        }
    }
}

impl Value {
    /// The integer this value holds.
    pub fn to_int(&self) -> (r: Result<i64, RuntimeError>)
        ensures
            match self@ {
                ValueV::Int(n) => r == Ok::<i64, RuntimeError>(n),
                _ => r matches Err(e) && e@ == Fault::ExpectedNumber,
            },
    {
        match self {
            Value::Int(n) => Ok(*n),
            _ => Err(RuntimeError::ExpectedNumber),
        }
    }

    /// The truthiness of this value.
    pub fn truthiness(&self) -> (r: bool)
        requires
            !(self@ is Comment),
        ensures
            r == truthy(self@),
    {
        match self {
            Value::Bool(b) => *b,
            Value::Int(n) => *n != 0,
            Value::Str(s) => s.as_str().unicode_len() == 0,
            Value::Comment(_) => false,
        }
    }

    /// A copy of this value.
    pub fn duplicate(&self) -> (r: Value)
        ensures
            r@ == self@,
    {
        match self {
            Value::Int(n) => Value::Int(*n),
            Value::Str(s) => Value::Str(s.clone()),
            Value::Comment(s) => Value::Comment(s.clone()),
            Value::Bool(b) => Value::Bool(*b),
        }
    }

    /// The textual form of this value.
    pub fn to_text(&self) -> (r: String)
        ensures
            r@ == value_text(self@),
    {
        match self {
            Value::Int(n) => {
                let mut buf: Vec<char> = Vec::new();
                crate::text::push_decimal(&mut buf, *n);
                assert(buf@ =~= decimal(*n as int));
                let len = buf.len();
                crate::text::string_of(&buf, 0, len)
            },
            Value::Str(s) => s.clone(),
            Value::Comment(s) => s.clone(),
            Value::Bool(b) => {
                let mut buf: Vec<char> = Vec::new();
                if *b {
                    crate::text::push_str(&mut buf, "true");
                } else {
                    crate::text::push_str(&mut buf, "false");
                }
                assert(buf@ =~= value_text(self@));
                let len = buf.len();
                crate::text::string_of(&buf, 0, len)
            },
        }
    }
}

/// The report of a run-time error.
pub open spec fn fault_text(f: Fault) -> Seq<char> {
    match f {
        Fault::ExpectedNumber => "Error: Expected numerical expression"@,
        Fault::Undefined(n) => n + " is undefined"@,
        Fault::EmptyStack => "The stack is empty"@,
        Fault::ReservedIdentifier => "Error: Cannot assign to reserved identifier 'pop'"@,
        Fault::DivisionByZero => "Error: Division by zero"@,
        Fault::Overflow => "Error: Integer overflow"@,
        Fault::BadOperator => "Error: Operator not supported here"@,
    }
}

impl RuntimeError {
    /// The report of this error.
    pub fn message(&self) -> (r: String)
        ensures
            r@ == fault_text(self@),
    {
        let mut buf: Vec<char> = Vec::new();
        match self {
            RuntimeError::ExpectedNumber => push_str(&mut buf, "Error: Expected numerical expression"),
            RuntimeError::Undefined(n) => {
                push_str(&mut buf, n.as_str());
                push_str(&mut buf, " is undefined");
            },
            RuntimeError::EmptyStack => push_str(&mut buf, "The stack is empty"),
            RuntimeError::ReservedIdentifier => push_str(
                &mut buf,
                "Error: Cannot assign to reserved identifier 'pop'",
            ),
            RuntimeError::DivisionByZero => push_str(&mut buf, "Error: Division by zero"),
            RuntimeError::Overflow => push_str(&mut buf, "Error: Integer overflow"),
            RuntimeError::BadOperator => push_str(&mut buf, "Error: Operator not supported here"),
        }
        assert(buf@ =~= fault_text(self@));
        let n = buf.len();
        let r = string_of(&buf, 0, n);
        assert(buf@.subrange(0, n as int) =~= buf@);
        r
    }
}

impl PartialEq for Value {
    fn eq(&self, other: &Value) -> (r: bool) {
        match (self, other) {
            (Value::Int(a), Value::Int(b)) => *a == *b,
            (Value::Str(a), Value::Str(b)) => *a == *b,
            (Value::Comment(a), Value::Comment(b)) => *a == *b,
            (Value::Bool(a), Value::Bool(b)) => *a == *b,
            _ => false,
        }
    }
}

impl vstd::std_specs::cmp::PartialEqSpecImpl for Value {
    open spec fn obeys_eq_spec() -> bool {
        true
    }

    open spec fn eq_spec(&self, other: &Value) -> bool {
        same_value(self@, other@)
    }
}

} // verus!
