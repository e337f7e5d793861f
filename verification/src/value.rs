//! The primitive values of the language.

use crate::text::{i64_to_decimal, int_decimal, push_char, push_str};
use vstd::prelude::*;

verus! {

/// A primitive value. (The language has no floating-point literals, so this library
/// has no floating-point values either.)
pub enum Value {
    Unit,
    Int(i64),
    String(String),
    Boolean(bool),
}

/// The mathematical form of a value.
pub enum ValueView {
    Unit,
    Int(i64),
    Str(Seq<char>),
    Boolean(bool),
}

impl View for Value {
    type V = ValueView;

    open spec fn view(&self) -> ValueView {
        match self {
            Value::Unit => ValueView::Unit,
            Value::Int(i) => ValueView::Int(*i),
            Value::String(s) => ValueView::Str(s@),
            Value::Boolean(b) => ValueView::Boolean(*b),
        }
    }
}

/// How a value is displayed: `unit`, `"text"`, `42i64`, `#true`.
pub open spec fn value_text(v: ValueView) -> Seq<char> {
    match v {
        ValueView::Unit => seq!['u', 'n', 'i', 't'],
        ValueView::Str(s) => seq!['"'] + s + seq!['"'],
        ValueView::Int(i) => int_decimal(i as int) + seq!['i', '6', '4'],
        ValueView::Boolean(b) => seq!['#'] + if b {
            seq!['t', 'r', 'u', 'e']
        } else {
            seq!['f', 'a', 'l', 's', 'e']
        },
    }
}

impl Clone for Value {
    fn clone(&self) -> (r: Self)
        ensures
            r == *self,
    {
        match self {
            Value::Unit => Value::Unit,
            Value::Int(i) => Value::Int(*i),
            Value::String(s) => Value::String(s.clone()),
            Value::Boolean(b) => Value::Boolean(*b),
        }
    }
}

impl Value {
    pub fn unit() -> (r: Self)
        ensures
            r == Value::Unit,
    {
        Self::Unit
    }

    pub fn string(string: &str) -> (r: Self)
        ensures
            r@ == ValueView::Str(string@),
    {
        Self::String(string.to_owned())
    }

    /// The text the value is displayed as.
    pub fn to_display_string(&self) -> (r: String)
        ensures
            r@ == value_text(self@),
    {
        let mut r = String::new();
        match self {
            Value::Unit => {
                push_str(&mut r, "unit");
                proof {
                    reveal_strlit("unit");
                }
            },
            Value::String(s) => {
                push_char(&mut r, '"');
                push_str(&mut r, s.as_str());
                push_char(&mut r, '"');
            },
            Value::Int(i) => {
                let d = i64_to_decimal(*i);
                push_str(&mut r, d.as_str());
                push_str(&mut r, "i64");
                proof {
                    reveal_strlit("i64");
                }
            },
            Value::Boolean(b) => {
                push_char(&mut r, '#');
                if *b {
                    push_str(&mut r, "true");
                    proof {
                        reveal_strlit("true");
                    }
                } else {
                    push_str(&mut r, "false");
                    proof {
                        reveal_strlit("false");
                    }
                }
            },
        }
        assert(r@ =~= value_text(self@));
        r
    }
}

} // verus!
