//! The plain result of evaluating an expression in the host's engine, and
//! the coercion rules applied to it: stringification for text interpolation
//! and `:attr` substitution, and boolean coercion for `x-if` and the boolean
//! flag attributes.

use vstd::prelude::*;
use crate::strutil::{push_char, trim_spec};

verus! {

/// An expression result, reduced by the host to plain data.  A number that
/// is integral and fits `i64` arrives as `Int`; any other number arrives as
/// `Str` holding its decimal text, which stringifies and coerces the same
/// way.  An object or symbol arrives as `Object` holding the host's
/// deterministic structural serialization of it; that serialization is the
/// policy used when such a value is interpolated into text.
#[derive(Clone, Debug)]
pub enum Value {
    Undefined,
    Null,
    Bool(bool),
    Int(i64),
    Str(String),
    Object(String),
}

/// Mathematical model of a [`Value`].
pub enum ValueV {
    Undefined,
    Null,
    Bool(bool),
    Int(int),
    Str(Seq<char>),
    Object(Seq<char>),
}

impl View for Value {
    type V = ValueV;

    open spec fn view(&self) -> ValueV {
        match self {
            Value::Undefined => ValueV::Undefined,
            Value::Null => ValueV::Null,
            Value::Bool(b) => ValueV::Bool(*b),
            Value::Int(i) => ValueV::Int(*i as int),
            Value::Str(s) => ValueV::Str(s@),
            Value::Object(s) => ValueV::Object(s@),
        }
    }
}

/// Boolean coercion: a number is truthy exactly when nonzero; a string is
/// truthy exactly when non-empty after trimming whitespace; `null` and
/// `undefined` are falsy; a boolean stands as it is; an object or symbol is
/// always truthy.
pub open spec fn truthy(v: ValueV) -> bool {
    match v {
        ValueV::Undefined => false,
        ValueV::Null => false,
        ValueV::Bool(b) => b,
        ValueV::Int(i) => i != 0,
        ValueV::Str(s) => trim_spec(s).len() > 0,
        ValueV::Object(_) => true,
    }
}

/// Stringification: a number becomes its default decimal text; a string
/// stays as it is; a boolean becomes `true` or `false`; `null` and
/// `undefined` become those words; an object or symbol becomes the host's
/// structural serialization of it.
pub open spec fn str_of_value(v: ValueV) -> Seq<char> {
    match v {
        ValueV::Undefined => "undefined"@,
        ValueV::Null => "null"@,
        ValueV::Bool(b) => if b {
            "true"@
        } else {
            "false"@
        },
        ValueV::Int(i) => dec_int(i),
        ValueV::Str(s) => s,
        ValueV::Object(s) => s,
    }
}

/// Executable boolean coercion; used by `x-if` and the boolean flag
/// attributes.
pub fn boolify_value(v: &Value) -> (r: bool)
    ensures
        r == truthy(v@),
{
    match v {
        Value::Undefined => false,
        Value::Null => false,
        Value::Bool(b) => *b,
        Value::Int(i) => *i != 0,
        Value::Str(s) => {
            let t = crate::strutil::trim(s.as_str());
            !t.is_empty()
        },
        Value::Object(_) => true,
    }
}

/// The decimal digit character for `d`.
pub open spec fn digit_char(d: int) -> char {
    if d == 0 {
        '0'
    } else if d == 1 {
        '1'
    } else if d == 2 {
        '2'
    } else if d == 3 {
        '3'
    } else if d == 4 {
        '4'
    } else if d == 5 {
        '5'
    } else if d == 6 {
        '6'
    } else if d == 7 {
        '7'
    } else if d == 8 {
        '8'
    } else {
        '9'
    }
}

/// The decimal text of a natural number, most significant digit first.
pub open spec fn dec_digits(n: nat) -> Seq<char>
    decreases n,
{
    if n < 10 {
        seq![digit_char(n as int)]
    } else {
        dec_digits(n / 10).push(digit_char((n % 10) as int))
    }
}

/// The decimal text of an integer, with a leading minus sign when negative.
pub open spec fn dec_int(i: int) -> Seq<char> {
    if i < 0 {
        seq!['-'] + dec_digits((-i) as nat)
    } else {
        dec_digits(i as nat)
    }
}

fn digit_to_char(d: u64) -> (c: char)
    requires
        d < 10,
    ensures
        c == digit_char(d as int),
{
    if d == 0 {
        '0'
    } else if d == 1 {
        '1'
    } else if d == 2 {
        '2'
    } else if d == 3 {
        '3'
    } else if d == 4 {
        '4'
    } else if d == 5 {
        '5'
    } else if d == 6 {
        '6'
    } else if d == 7 {
        '7'
    } else if d == 8 {
        '8'
    } else {
        '9'
    }
}

/// Format an unsigned number as decimal text.
pub fn u64_to_string(n: u64) -> (r: String)
    ensures
        r@ == dec_digits(n as nat),
    decreases n,
{
    if n < 10 {
        let mut s = String::new();
        push_char(&mut s, digit_to_char(n));
        proof {
            assert(s@ =~= dec_digits(n as nat));
        }
        s
    } else {
        let mut s = u64_to_string(n / 10);
        push_char(&mut s, digit_to_char(n % 10));
        proof {
            assert(s@ =~= dec_digits(n as nat));
        }
        s
    }
}

/// Format a signed number as decimal text.
pub fn i64_to_string(n: i64) -> (r: String)
    ensures
        r@ == dec_int(n as int),
{
    if n >= 0 {
        u64_to_string(n as u64)
    } else {
        let m: u64 = ((-(n + 1)) as u64) + 1;
        proof {
            assert(m as int == -(n as int));
        }
        let mut s = String::new();
        push_char(&mut s, '-');
        let d = u64_to_string(m);
        let r = s.concat(d.as_str());
        proof {
            assert(r@ =~= dec_int(n as int));
        }
        r
    }
}

/// Executable stringification of a value.
pub fn stringify_value(v: &Value) -> (r: String)
    ensures
        r@ == str_of_value(v@),
{
    match v {
        Value::Undefined => String::from_str("undefined"),
        Value::Null => String::from_str("null"),
        Value::Bool(b) => {
            if *b {
                String::from_str("true")
            } else {
                String::from_str("false")
            }
        },
        Value::Int(i) => i64_to_string(*i),
        Value::Str(s) => s.clone(),
        Value::Object(s) => s.clone(),
    }
}

} // verus!
