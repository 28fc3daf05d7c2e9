//! The tagged value model: nil, booleans, 64-bit integer numbers, and
//! references to heap objects (by index into the heap's allocation list).
use vstd::prelude::*;

verus! {

/// A runtime value. Equality is structural for primitives; for objects it is
/// identity of the heap slot, which interning makes agree with content
/// equality for strings.
#[derive(Debug, Clone, Copy, PartialEq, Eq, Structural)]
pub enum Value {
    Nil,
    Bool(bool),
    Number(i64),
    Object(usize),
}

/// Truthiness: `nil` and `false` are falsey, every other value is truthy.
pub open spec fn spec_truthy(v: Value) -> bool {
    match v {
        Value::Nil => false,
        Value::Bool(b) => b,
        _ => true,
    }
}

impl Value {
    /// Returns `true` if the value is a boolean.
    pub fn is_bool(&self) -> (r: bool)
        ensures
            r == (self is Bool),
    {
        matches!(self, Value::Bool(..))
    }

    /// Returns `true` if the value is a number.
    pub fn is_number(&self) -> (r: bool)
        ensures
            r == (self is Number),
    {
        matches!(self, Value::Number(..))
    }

    /// Returns `true` if the value is nil.
    pub fn is_nil(&self) -> (r: bool)
        ensures
            r == (self is Nil),
    {
        matches!(self, Value::Nil)
    }

    /// Returns `true` if the value is an object reference.
    pub fn is_object(&self) -> (r: bool)
        ensures
            r == (self is Object),
    {
        matches!(self, Value::Object(..))
    }

    /// Extracts the number, or returns the value itself when it is not one.
    pub fn try_into_number(self) -> (r: Result<i64, Value>)
        ensures
            match self {
                Value::Number(n) => r == Result::<i64, Value>::Ok(n),
                _ => r == Result::<i64, Value>::Err(self),
            },
    {
        if let Value::Number(v) = self {
            Ok(v)
        } else {
            Err(self)
        }
    }

    /// Extracts the boolean, or returns the value itself when it is not one.
    pub fn try_into_bool(self) -> (r: Result<bool, Value>)
        ensures
            match self {
                Value::Bool(b) => r == Result::<bool, Value>::Ok(b),
                _ => r == Result::<bool, Value>::Err(self),
            },
    {
        if let Value::Bool(v) = self {
            Ok(v)
        } else {
            Err(self)
        }
    }

    /// Truthiness test.
    pub fn truthy(&self) -> (r: bool)
        ensures
            r == spec_truthy(*self),
    {
        match self {
            Value::Nil => false,
            Value::Bool(b) => *b,
            _ => true,
        }
    }

    /// Logical not, by truthiness.
    pub fn not(self) -> (r: Value)
        ensures
            r == Value::Bool(!spec_truthy(self)),
    {
        Value::Bool(match self {
            Value::Nil => true,
            Value::Bool(b) => !b,
            _ => false,
        })
    }
}

/// The decimal digits of a natural number, most significant first.
pub open spec fn dec_bytes(n: nat) -> Seq<u8>
    decreases n,
{
    if n < 10 {
        seq![(48 + n) as u8]
    } else {
        dec_bytes(n / 10).push((48 + n % 10) as u8)
    }
}

/// The decimal rendering of an integer: a minus sign for negative numbers,
/// then the digits of its magnitude.
pub open spec fn dec_bytes_signed(n: int) -> Seq<u8> {
    if n < 0 {
        seq![45u8] + dec_bytes((-n) as nat)
    } else {
        dec_bytes(n as nat)
    }
}

/// Renders a natural number in decimal.
pub fn render_u64(n: u64) -> (r: Vec<u8>)
    ensures
        r@ == dec_bytes(n as nat),
    decreases n,
{
    if n < 10 {
        let mut v: Vec<u8> = Vec::new();
        v.push((48 + n) as u8);
        proof {
            assert(v@ =~= dec_bytes(n as nat));
        }
        v
    } else {
        let mut v = render_u64(n / 10);
        v.push((48 + (n % 10)) as u8);
        proof {
            assert(v@ =~= dec_bytes(n as nat));
        }
        v
    }
}

/// Renders a signed number in decimal.
pub fn render_i64(n: i64) -> (r: Vec<u8>)
    ensures
        r@ == dec_bytes_signed(n as int),
{
    if n >= 0 {
        render_u64(n as u64)
    } else {
        let magnitude: u64 = if n == i64::MIN {
            9223372036854775808u64
        } else {
            (-n) as u64
        };
        let mut v: Vec<u8> = Vec::new();
        v.push(45u8);
        let digits = render_u64(magnitude);
        let mut i: usize = 0;
        let m = digits.len();
        while i < m
            invariant
                i <= m,
                m == digits@.len(),
                v@ == seq![45u8] + digits@.take(i as int),
            decreases m - i,
        {
            v.push(digits[i]);
            proof {
                assert(v@ =~= seq![45u8] + digits@.take(i + 1));
            }
            i = i + 1;
        }
        proof {
            assert(digits@.take(m as int) =~= digits@);
            assert(v@ =~= dec_bytes_signed(n as int));
        }
        v
    }
}

} // verus!
