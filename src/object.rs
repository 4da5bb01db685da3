use vstd::prelude::*;

use crate::chars::{decimal, decimal_text, text};

verus! {

#[derive(Debug, PartialEq, Eq, Structural, Copy, Clone)]
pub struct Integer {
    pub value: i64,
}

#[derive(Debug, PartialEq, Eq, Structural, Copy, Clone)]
pub struct Bool {
    pub value: bool,
}

#[derive(Debug, PartialEq, Eq, Structural, Copy, Clone)]
pub struct Null {}

/// A value on its way out of a `return`, carried up through enclosing blocks.
#[derive(Debug)]
pub struct ReturnValue {
    pub value: Object,
}

/// A runtime value.
#[derive(Debug)]
pub enum Object {
    Integer(Integer),
    Bool(Bool),
    Null(Null),
    ReturnValue(Box<ReturnValue>),
}

/// Value equality: integers and booleans by value, `null` equals `null`, and
/// every other pair differs.
pub open spec fn same_value(a: Object, b: Object) -> bool {
    match (a, b) {
        (Object::Integer(x), Object::Integer(y)) => x.value == y.value,
        (Object::Bool(x), Object::Bool(y)) => x.value == y.value,
        (Object::Null(_), Object::Null(_)) => true,
        _ => false,
    }
}

/// Only `false` and `null` are falsy.
pub open spec fn truthy(v: Object) -> bool {
    match v {
        Object::Bool(b) => b.value,
        Object::Null(_) => false,
        _ => true,
    }
}

/// How a value is displayed.
pub open spec fn display(v: Object) -> Seq<char> {
    match v {
        Object::Integer(i) => decimal(i.value as int),
        Object::Bool(b) => if b.value {
            "true"@
        } else {
            "false"@
        },
        Object::Null(_) => "null"@,
        Object::ReturnValue(_) => "RETURN_VALUE"@,
    }
}

impl Object {
    /// The display text of this value.
    pub fn string(&self) -> (r: String)
        ensures
            r@ == display(*self),
    {
        match self {
            Object::Integer(i) => decimal_text(i.value),
            Object::Bool(b) => {
                if b.value {
                    text("true")
                } else {
                    text("false")
                }
            },
            Object::Null(_) => text("null"),
            Object::ReturnValue(_) => text("RETURN_VALUE"),
        }
    }

    pub fn new_integer(value: i64) -> (r: Object)
        ensures
            r == Object::Integer(Integer { value }),
    {
        Object::Integer(Integer { value })
    }

    pub fn new_bool(value: bool) -> (r: Object)
        ensures
            r == Object::Bool(Bool { value }),
    {
        Object::Bool(Bool { value })
    }

    pub fn null() -> (r: Object)
        ensures
            r == Object::Null(Null {}),
    {
        Object::Null(Null {})
    }

    pub fn is_return_value(&self) -> (r: bool)
        ensures
            r == (*self is ReturnValue),
    {
        match self {
            Object::ReturnValue(_) => true,
            _ => false,
        }
    }

    /// Whether a condition with this value holds.
    pub fn is_truthy(&self) -> (r: bool)
        ensures
            r == truthy(*self),
    {
        match self {
            Object::Bool(b) => b.value,
            Object::Null(_) => false,
            _ => true,
        }
    }

    /// Value equality, as `==` in the language compares.
    pub fn equals(&self, other: &Object) -> (r: bool)
        ensures
            r == same_value(*self, *other),
    {
        match (self, other) {
            (Object::Integer(x), Object::Integer(y)) => x.value == y.value,
            (Object::Bool(x), Object::Bool(y)) => x.value == y.value,
            (Object::Null(_), Object::Null(_)) => true,
            _ => false,
        }
    }

    /// A copy of this value, equal to it.
    pub fn copy(&self) -> (r: Object)
        ensures
            r == *self,
        decreases self,
    {
        match self {
            Object::Integer(i) => Object::Integer(*i),
            Object::Bool(b) => Object::Bool(*b),
            Object::Null(n) => Object::Null(*n),
            Object::ReturnValue(r) => Object::ReturnValue(
                Box::new(ReturnValue { value: r.value.copy() }),
            ),
        }
    }
}

impl PartialEq for Object {
    fn eq(&self, other: &Object) -> (r: bool) {
        self.equals(other)
    }
}

impl vstd::std_specs::cmp::PartialEqSpecImpl for Object {
    open spec fn obeys_eq_spec() -> bool {
        true
    }

    open spec fn eq_spec(&self, other: &Object) -> bool {
        same_value(*self, *other)
    }
}

impl PartialEq for ReturnValue {
    fn eq(&self, other: &ReturnValue) -> (r: bool) {
        self.value.equals(&other.value)
    }
}

impl vstd::std_specs::cmp::PartialEqSpecImpl for ReturnValue {
    open spec fn obeys_eq_spec() -> bool {
        true
    }

    open spec fn eq_spec(&self, other: &ReturnValue) -> bool {
        same_value(self.value, other.value)
    }
}

} // verus!
