use vstd::prelude::*;
use vstd::string::*;

verus! {

/// A runtime value.
///
/// A number is carried as decimal text: the literal as it was written, or
/// what the host handed back for a computation. This library never reads the
/// text as a quantity; it only passes it on.
#[derive(Debug, PartialEq)]
pub enum Value {
    String(String),
    Number(String),
    Bool(bool),
    Nil,
}

/// The mathematical value of a [`Value`].
pub ghost enum ValueView {
    String(Seq<char>),
    Number(Seq<char>),
    Bool(bool),
    Nil,
}

impl ValueView {
    /// `nil` and `false` are falsy; every other value is truthy.
    pub open spec fn is_truthy(self) -> bool {
        match self {
            ValueView::Nil => false,
            ValueView::Bool(b) => b,
            _ => true,
        }
    }

    /// The display form: `nil`, `true` or `false`, a number's text as it is
    /// carried, and a string's content between double quotes.
    ///
    /// A number that the host handed back reads in the host's form. A number
    /// literal that has not been through the host reads as it was written:
    /// `2.0` stays `2.0`.
    pub open spec fn text(self) -> Seq<char> {
        match self {
            ValueView::Nil => "nil"@,
            ValueView::Bool(b) => if b {
                "true"@
            } else {
                "false"@
            },
            ValueView::Number(n) => n,
            ValueView::String(s) => "\""@ + s + "\""@,
        }
    }
}

impl View for Value {
    type V = ValueView;

    open spec fn view(&self) -> ValueView {
        match self {
            Value::String(s) => ValueView::String(s@),
            Value::Number(n) => ValueView::Number(n@),
            Value::Bool(b) => ValueView::Bool(*b),
            Value::Nil => ValueView::Nil,
        }
    }
}

impl Clone for Value {
    fn clone(&self) -> (r: Self)
        ensures
            r == *self,
    {
        match self {
            Value::String(s) => Value::String(s.clone()),
            Value::Number(n) => Value::Number(n.clone()),
            Value::Bool(b) => Value::Bool(*b),
            Value::Nil => Value::Nil,
        }
    }
}

impl Value {
    /// Whether the value counts as true: every value but `nil` and `false`.
    pub fn is_truthy(&self) -> (r: bool)
        ensures
            r == self@.is_truthy(),
    {
        match self {
            Value::Nil => false,
            Value::Bool(b) => *b,
            _ => true,
        }
    }

    /// The display form of the value. A string is given between double
    /// quotes.
    ///
    /// A number is given as the text that the value carries. That is the
    /// host's form of the number where the host handed the value back, and the
    /// literal as it was written where it did not: `2.0` stays `2.0`. A caller
    /// that wants the host's form of a literal has the host read the literal
    /// first, as the interpreter does when it evaluates one.
    pub fn to_string(&self) -> (r: String)
        ensures
            r@ == self@.text(),
    {
        match self {
            Value::Nil => "nil".to_owned(),
            Value::Bool(b) => if *b {
                "true".to_owned()
            } else {
                "false".to_owned()
            },
            Value::Number(n) => n.clone(),
            Value::String(s) => String::from_str("\"").concat(s.as_str()).concat("\""),
        }
    }
}

} // verus!
