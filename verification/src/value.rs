//! The kinds of parameters and the typed values that arguments are coerced to.

use vstd::prelude::*;
use crate::literal::{bool_literal, int_literal, is_float, is_float_literal, parse_bool, parse_int};
use crate::text::{chars_of, string_of};

verus! {

/// The scalar type that a parameter is declared with.
#[derive(Clone, Copy, Debug, PartialEq, Eq, Structural)]
pub enum ParamKind {
    Int,
    Float,
    Bool,
    String,
}

/// The text of a floating-point number, as it was written on the command line.
///
/// The library checks the text against the grammar of such numbers and hands it on as it
/// is: turning it into a machine number is left to the caller.
#[derive(Debug, PartialEq, Eq)]
pub struct FloatLiteral {
    text: String,
}

impl View for FloatLiteral {
    type V = Seq<char>;

    closed spec fn view(&self) -> Seq<char> {
        self.text@
    }
}

impl Clone for FloatLiteral {
    fn clone(&self) -> (copy: Self)
        ensures
            copy@ == self@,
    {
        proof {
            use_type_invariant(self);
        }
        FloatLiteral { text: self.text.clone() }
    }
}

impl FloatLiteral {
    #[verifier::type_invariant]
    spec fn well_formed(self) -> bool {
        is_float_literal(self.text@)
    }

    /// The literal with the text `text`, where that is the text of a floating-point number.
    pub fn new(text: &str) -> (r: Option<FloatLiteral>)
        ensures
            match r {
                Some(literal) => literal@ == text@ && is_float_literal(text@),
                None => !is_float_literal(text@),
            },
    {
        let chars = chars_of(text);
        Self::from_chars(chars.as_slice())
    }

    /// The literal with the characters `chars`, where they are the text of a
    /// floating-point number.
    pub fn from_chars(chars: &[char]) -> (r: Option<FloatLiteral>)
        ensures
            match r {
                Some(literal) => literal@ == chars@ && is_float_literal(chars@),
                None => !is_float_literal(chars@),
            },
    {
        if is_float(chars) {
            Some(FloatLiteral { text: string_of(chars) })
        } else {
            None
        }
    }

    /// The text of the literal, which is always that of a floating-point number.
    pub fn as_str(&self) -> (text: &str)
        ensures
            text@ == self@,
            is_float_literal(text@),
    {
        proof {
            use_type_invariant(self);
        }
        self.text.as_str()
    }
}

/// A typed value: what the text of an argument was coerced to.
#[derive(Debug, PartialEq, Eq)]
pub enum Value {
    Int(i64),
    Float(FloatLiteral),
    Bool(bool),
    String(String),
}

/// What a [`Value`] stands for.
pub enum ValueView {
    Int(int),
    Float(Seq<char>),
    Bool(bool),
    String(Seq<char>),
}

impl View for Value {
    type V = ValueView;

    open spec fn view(&self) -> ValueView {
        match self {
            Value::Int(v) => ValueView::Int(*v as int),
            Value::Float(literal) => ValueView::Float(literal@),
            Value::Bool(b) => ValueView::Bool(*b),
            Value::String(s) => ValueView::String(s@),
        }
    }
}

impl Clone for Value {
    fn clone(&self) -> (copy: Self)
        ensures
            copy@ == self@,
    {
        match self {
            Value::Int(v) => Value::Int(*v),
            Value::Float(literal) => Value::Float(literal.clone()),
            Value::Bool(b) => Value::Bool(*b),
            Value::String(s) => Value::String(s.clone()),
        }
    }
}

/// The kind of a value.
pub open spec fn kind_of(value: ValueView) -> ParamKind {
    match value {
        ValueView::Int(_) => ParamKind::Int,
        ValueView::Float(_) => ParamKind::Float,
        ValueView::Bool(_) => ParamKind::Bool,
        ValueView::String(_) => ParamKind::String,
    }
}

/// What an optional value stands for.
pub open spec fn optional_view(value: Option<Value>) -> Option<ValueView> {
    match value {
        Some(v) => Some(v@),
        None => None,
    }
}

/// The value that the text `raw` denotes as a parameter of kind `kind`: the integer, the
/// floating-point literal or the boolean that it is a literal of, or the text itself for
/// a string. `None` where `raw` is no literal of that kind.
pub open spec fn coerced(kind: ParamKind, raw: Seq<char>) -> Option<ValueView> {
    match kind {
        ParamKind::Int => match int_literal(raw) {
            Some(v) => Some(ValueView::Int(v)),
            None => None,
        },
        ParamKind::Float => if is_float_literal(raw) {
            Some(ValueView::Float(raw))
        } else {
            None
        },
        ParamKind::Bool => match bool_literal(raw) {
            Some(b) => Some(ValueView::Bool(b)),
            None => None,
        },
        ParamKind::String => Some(ValueView::String(raw)),
    }
}

/// A value that comes out of a coercion has the kind that was asked for.
pub proof fn lemma_coerced_kind(kind: ParamKind, raw: Seq<char>)
    ensures
        coerced(kind, raw) matches Some(value) ==> kind_of(value) == kind,
{
}

impl Value {
    /// The kind of the value.
    pub fn kind(&self) -> (kind: ParamKind)
        ensures
            kind == kind_of(self@),
    {
        match self {
            Value::Int(_) => ParamKind::Int,
            Value::Float(_) => ParamKind::Float,
            Value::Bool(_) => ParamKind::Bool,
            Value::String(_) => ParamKind::String,
        }
    }

    /// The integer, where the value is one.
    pub fn as_int(&self) -> (r: Option<i64>)
        ensures
            match r {
                Some(v) => self@ == ValueView::Int(v as int),
                None => kind_of(self@) != ParamKind::Int,
            },
    {
        match self {
            Value::Int(v) => Some(*v),
            _ => None,
        }
    }

    /// The text of the floating-point number, where the value is one.
    pub fn as_float(&self) -> (r: Option<&FloatLiteral>)
        ensures
            match r {
                Some(literal) => self@ == ValueView::Float(literal@),
                None => kind_of(self@) != ParamKind::Float,
            },
    {
        match self {
            Value::Float(literal) => Some(literal),
            _ => None,
        }
    }

    /// The boolean, where the value is one.
    pub fn as_bool(&self) -> (r: Option<bool>)
        ensures
            match r {
                Some(b) => self@ == ValueView::Bool(b),
                None => kind_of(self@) != ParamKind::Bool,
            },
    {
        match self {
            Value::Bool(b) => Some(*b),
            _ => None,
        }
    }

    /// The string, where the value is one.
    pub fn as_str(&self) -> (r: Option<&str>)
        ensures
            match r {
                Some(s) => self@ == ValueView::String(s@),
                None => kind_of(self@) != ParamKind::String,
            },
    {
        match self {
            Value::String(s) => Some(s.as_str()),
            _ => None,
        }
    }

    /// Coerces the characters `raw` to a value of kind `kind`.
    pub fn coerce(kind: ParamKind, raw: &[char]) -> (r: Option<Value>)
        ensures
            optional_view(r) == coerced(kind, raw@),
    {
        match kind {
            ParamKind::Int => match parse_int(raw) {
                Some(v) => Some(Value::Int(v)),
                None => None,
            },
            ParamKind::Float => match FloatLiteral::from_chars(raw) {
                Some(literal) => Some(Value::Float(literal)),
                None => None,
            },
            ParamKind::Bool => match parse_bool(raw) {
                Some(b) => Some(Value::Bool(b)),
                None => None,
            },
            ParamKind::String => Some(Value::String(string_of(raw))),
        }
    }

    /// Coerces the text `raw` to a value of kind `kind`.
    pub fn parse(kind: ParamKind, raw: &str) -> (r: Option<Value>)
        ensures
            optional_view(r) == coerced(kind, raw@),
    {
        let chars = chars_of(raw);
        Self::coerce(kind, chars.as_slice())
    }
}

} // verus!
