use vstd::prelude::*;

use crate::chunk::Chunk;
use vstd::string::StringExecFns;

verus! {

/// How many arguments a function takes: exactly `n`, or at least `n`.
#[derive(Clone, Copy, Debug, PartialEq, Eq, Structural)]
pub enum Arity {
    Fixed(u8),
    Variadic(u8),
}

/// A heap object. Strings are held by value; the other objects are shared
/// and mutable, and live in the machine's heaps: they are named by their
/// index there.
#[derive(Debug)]
pub enum Object {
    String(String),
    List(usize),
    Object(usize),
    Closure(usize),
    Function(usize),
    Native(usize),
    File(usize),
}

/// A value of the language. A number is held as the bit pattern of its
/// IEEE-754 double; the machine moves it around without reading it.
#[derive(Debug)]
pub enum Value {
    Nil,
    Bool(bool),
    Number(u64),
    Object(Object),
}

/// The mathematical form of an object.
pub enum ObjectView {
    String(Seq<char>),
    List(usize),
    Object(usize),
    Closure(usize),
    Function(usize),
    Native(usize),
    File(usize),
}

/// The mathematical form of a value.
pub enum ValueView {
    Nil,
    Bool(bool),
    Number(u64),
    Object(ObjectView),
}

impl View for Value {
    type V = ValueView;

    open spec fn view(&self) -> ValueView {
        match self {
            Value::Nil => ValueView::Nil,
            Value::Bool(b) => ValueView::Bool(*b),
            Value::Number(n) => ValueView::Number(*n),
            Value::Object(o) => ValueView::Object(
                match o {
                    Object::String(s) => ObjectView::String(s@),
                    Object::List(i) => ObjectView::List(*i),
                    Object::Object(i) => ObjectView::Object(*i),
                    Object::Closure(i) => ObjectView::Closure(*i),
                    Object::Function(i) => ObjectView::Function(*i),
                    Object::Native(i) => ObjectView::Native(*i),
                    Object::File(i) => ObjectView::File(*i),
                },
            ),
        }
    }
}

impl Clone for Value {
    fn clone(&self) -> (r: Self)
        ensures
            r@ == self@,
    {
        match self {
            Value::Nil => Value::Nil,
            Value::Bool(b) => Value::Bool(*b),
            Value::Number(n) => Value::Number(*n),
            Value::Object(o) => Value::Object(
                match o {
                    Object::String(s) => Object::String(s.clone()),
                    Object::List(i) => Object::List(*i),
                    Object::Object(i) => Object::Object(*i),
                    Object::Closure(i) => Object::Closure(*i),
                    Object::Function(i) => Object::Function(*i),
                    Object::Native(i) => Object::Native(*i),
                    Object::File(i) => Object::File(*i),
                },
            ),
        }
    }
}

/// Whether a value counts as true in a condition: every value but `nil`
/// and false.
pub open spec fn truthy(v: ValueView) -> bool {
    !(v is Nil) && v != ValueView::Bool(false)
}

impl Value {
    /// Whether the value counts as true in a condition.
    pub fn is_truthy(&self) -> (b: bool)
        ensures
            b == truthy(self@),
    {
        match self {
            Value::Nil => false,
            Value::Bool(b) => *b,
            _ => true,
        }
    }

    /// Whether two values are equal, where that needs no arithmetic:
    /// values of different kinds differ, strings compare by their text and
    /// heap objects by identity. Two numbers give `None`.
    pub fn equals(&self, other: &Value) -> (r: Option<bool>)
        ensures
            (self@ is Number && other@ is Number) <==> r is None,
            r matches Some(b) ==> b == (self@ == other@),
    {
        match (self, other) {
            (Value::Number(_), Value::Number(_)) => None,
            (Value::Nil, Value::Nil) => Some(true),
            (Value::Bool(a), Value::Bool(b)) => Some(*a == *b),
            (Value::Object(a), Value::Object(b)) => Some(
                match (a, b) {
                    (Object::String(x), Object::String(y)) => *x == *y,
                    (Object::List(x), Object::List(y)) => *x == *y,
                    (Object::Object(x), Object::Object(y)) => *x == *y,
                    (Object::Closure(x), Object::Closure(y)) => *x == *y,
                    (Object::Function(x), Object::Function(y)) => *x == *y,
                    (Object::Native(x), Object::Native(y)) => *x == *y,
                    (Object::File(x), Object::File(y)) => *x == *y,
                    _ => false,
                },
            ),
            _ => Some(false),
        }
    }

    /// The joining of two strings, if both values are strings.
    pub fn join(&self, other: &Value) -> (r: Option<Value>)
        ensures
            match (self@, other@) {
                (ValueView::Object(ObjectView::String(a)), ValueView::Object(ObjectView::String(b))) =>
                    r matches Some(v) && v@ == ValueView::Object(ObjectView::String(a + b)),
                _ => r is None,
            },
    {
        match (self, other) {
            (Value::Object(Object::String(a)), Value::Object(Object::String(b))) => {
                let joined = a.clone().concat(b.as_str());
                Some(Value::new_string(joined))
            },
            _ => None,
        }
    }

    /// A string value.
    pub fn new_string(s: String) -> (v: Value)
        ensures
            v@ == ValueView::Object(ObjectView::String(s@)),
    {
        Value::Object(Object::String(s))
    }
}

/// A variable captured by a closure: still on the stack (at an index), or
/// moved off it into the closure.
#[derive(Debug)]
pub enum UpValue {
    Open(usize),
    Closed(Value),
}

/// The mathematical form of a captured variable.
pub enum UpValueView {
    Open(usize),
    Closed(ValueView),
}

impl View for UpValue {
    type V = UpValueView;

    open spec fn view(&self) -> UpValueView {
        match self {
            UpValue::Open(i) => UpValueView::Open(*i),
            UpValue::Closed(v) => UpValueView::Closed(v@),
        }
    }
}

/// A compiled function.
pub struct Function {
    pub name: Option<String>,
    pub arity: Arity,
    pub chunk: Chunk,
    pub path: Option<String>,
}

/// A function together with the variables it captured (named by their
/// index in the machine's captured-variable heap).
pub struct Closure {
    pub function: usize,
    pub up_values: Vec<usize>,
}

} // verus!
