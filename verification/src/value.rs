//! The universal runtime datum: a tagged union of nil, boolean, number and
//! heap-object handle.
//!
//! Numbers are held as signed 64-bit integers. Handles ([`crate::gc::ObjRef`])
//! are small copyable arena indices; two handles are equal exactly when they
//! name the same heap object, which, for interned strings, is equivalent to
//! content equality.

use crate::gc::{ObjRef, GC};
use vstd::prelude::*;

verus! {

#[derive(Copy, Clone, Debug, PartialEq, Eq, Structural)]
pub enum Value {
    Nil,
    Number(i64),
    Boolean(bool),
    Object(ObjRef),
}

pub type ValueArray = Vec<Value>;

/// Falsiness: nil and false are falsy; every other value, including the
/// number zero, is truthy.
pub open spec fn spec_is_falsey(value: Value) -> bool {
    match value {
        Value::Nil => true,
        Value::Boolean(b) => !b,
        _ => false,
    }
}

pub fn is_falsey(value: Value) -> (r: bool)
    ensures
        r == spec_is_falsey(value),
{
    match value {
        Value::Nil => true,
        Value::Boolean(false) => true,
        _ => false,
    }
}

/// Equality between runtime values: nil equals nil, booleans and numbers
/// compare by payload, object handles compare by identity, and values of
/// different kinds are never equal.
pub open spec fn spec_are_equal(a: Value, b: Value) -> bool {
    match (a, b) {
        (Value::Nil, Value::Nil) => true,
        (Value::Number(x), Value::Number(y)) => x == y,
        (Value::Boolean(x), Value::Boolean(y)) => x == y,
        (Value::Object(x), Value::Object(y)) => x == y,
        _ => false,
    }
}

pub fn are_equal(a: Value, b: Value) -> (r: bool)
    ensures
        r == spec_are_equal(a, b),
{
    match (a, b) {
        (Value::Nil, Value::Nil) => true,
        (Value::Number(x), Value::Number(y)) => x == y,
        (Value::Boolean(x), Value::Boolean(y)) => x == y,
        (Value::Object(x), Value::Object(y)) => x == y,
        _ => false,
    }
}

/// Every object handle in the sequence names a live heap object.
pub open spec fn values_valid(vs: Seq<Value>, heap_len: nat) -> bool {
    forall|i: int|
        0 <= i < vs.len() ==> ((#[trigger] vs[i]) matches Value::Object(r) ==> r.index < heap_len)
}

/// Every object handle among the map's values names a live heap object.
pub open spec fn map_values_valid(m: Map<Seq<char>, Value>, heap_len: nat) -> bool {
    forall|k: Seq<char>|
        m.dom().contains(k) ==> ((#[trigger] m[k]) matches Value::Object(r) ==> r.index < heap_len)
}

/// The decimal digit character for `d` (meaningful for `d < 10`).
pub open spec fn spec_digit_char(d: nat) -> char {
    if d == 0 {
        '0'
    } else if d == 1 {
        '1'
    } else if d == 2 {
        '2'
    } else if d == 3 {
        '3'
    } else if d == 4 {
        '4'
    } else if d == 5 {
        '5'
    } else if d == 6 {
        '6'
    } else if d == 7 {
        '7'
    } else if d == 8 {
        '8'
    } else {
        '9'
    }
}

/// The decimal digit string of a natural number, most significant first.
pub open spec fn spec_dec_digits(n: nat) -> Seq<char>
    decreases n,
{
    if n < 10 {
        seq![spec_digit_char(n)]
    } else {
        spec_dec_digits(n / 10).push(spec_digit_char(n % 10))
    }
}

/// The decimal string of an integer: a minus sign for negative values,
/// then the digits of the magnitude.
pub open spec fn spec_int_string(n: int) -> Seq<char> {
    if n < 0 {
        seq!['-'] + spec_dec_digits((-n) as nat)
    } else {
        spec_dec_digits(n as nat)
    }
}

/// The one-character string for a decimal digit.
fn digit_str(d: u64) -> (r: &'static str)
    requires
        d < 10,
    ensures
        r@ == seq![spec_digit_char(d as nat)],
{
    proof {
        reveal_strlit("0");
        reveal_strlit("1");
        reveal_strlit("2");
        reveal_strlit("3");
        reveal_strlit("4");
        reveal_strlit("5");
        reveal_strlit("6");
        reveal_strlit("7");
        reveal_strlit("8");
        reveal_strlit("9");
    }
    let r = if d == 0 {
        "0"
    } else if d == 1 {
        "1"
    } else if d == 2 {
        "2"
    } else if d == 3 {
        "3"
    } else if d == 4 {
        "4"
    } else if d == 5 {
        "5"
    } else if d == 6 {
        "6"
    } else if d == 7 {
        "7"
    } else if d == 8 {
        "8"
    } else {
        "9"
    };
    proof {
        assert(r@ =~= seq![spec_digit_char(d as nat)]);
    }
    r
}

/// Appends the decimal digits of `n` to `out`.
fn push_dec_digits(out: &mut String, n: u64)
    ensures
        final(out)@ == old(out)@ + spec_dec_digits(n as nat),
    decreases n,
{
    if n < 10 {
        out.append(digit_str(n));
        proof {
            assert(final(out)@ =~= old(out)@ + spec_dec_digits(n as nat));
        }
    } else {
        push_dec_digits(out, n / 10);
        out.append(digit_str(n % 10));
        proof {
            assert(final(out)@ =~= old(out)@ + spec_dec_digits(n as nat));
        }
    }
}

/// The decimal string of an unsigned number.
pub fn u64_to_string(n: u64) -> (s: String)
    ensures
        s@ == spec_dec_digits(n as nat),
{
    let mut s = String::new();
    push_dec_digits(&mut s, n);
    proof {
        assert(s@ =~= spec_dec_digits(n as nat));
    }
    s
}

/// The decimal string of a signed number.
pub fn i64_to_string(n: i64) -> (s: String)
    ensures
        s@ == spec_int_string(n as int),
{
    if n < 0 {
        let magnitude: u64 = (-(n as i128)) as u64;
        proof {
            assert(magnitude == -(n as int));
        }
        let mut s = String::new();
        s.append("-");
        push_dec_digits(&mut s, magnitude);
        proof {
            reveal_strlit("-");
            assert("-"@ =~= seq!['-']);
            assert(s@ =~= spec_int_string(n as int));
        }
        s
    } else {
        u64_to_string(n as u64)
    }
}

/// The display form of a value, over the heap contents: `nil`, the usual
/// boolean forms, a number in decimal, and a string's content surrounded by
/// double quotes.
pub open spec fn spec_value_display(v: Value, heap: Seq<Seq<char>>) -> Seq<char> {
    match v {
        Value::Nil => "nil"@,
        Value::Boolean(b) => if b {
            "true"@
        } else {
            "false"@
        },
        Value::Number(n) => spec_int_string(n as int),
        Value::Object(r) => seq!['"'] + heap[r.index as int] + seq!['"'],
    }
}

/// Renders a value's display form.
pub fn value_display(v: Value, gc: &GC) -> (s: String)
    requires
        gc.wf(),
        (v matches Value::Object(r) ==> gc.spec_valid(r)),
    ensures
        s@ == spec_value_display(v, gc.spec_contents()),
{
    match v {
        Value::Nil => {
            let s: String = "nil".to_owned();
            s
        },
        Value::Boolean(b) => {
            let s: String = if b {
                "true".to_owned()
            } else {
                "false".to_owned()
            };
            s
        },
        Value::Number(n) => i64_to_string(n),
        Value::Object(r) => {
            let mut s = String::new();
            s.append("\"");
            let obj = gc.get_obj(r);
            let content = obj.unwrap_string().get_value();
            s.append(content.as_str());
            s.append("\"");
            proof {
                reveal_strlit("\"");
                assert("\""@ =~= seq!['"']);
                assert(s@ =~= spec_value_display(v, gc.spec_contents()));
            }
            s
        },
    }
}

} // verus!
