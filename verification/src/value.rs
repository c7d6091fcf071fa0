//! Runtime values and the value stack of the virtual machine.

use vstd::prelude::*;

verus! {

/// The mathematical shape of a [`Value`]: text is abstracted to its
/// character sequence, a number to the bit pattern of an IEEE-754 binary64.
pub ghost enum ValueV {
    Nil,
    Boolean(bool),
    Number(u64),
    DynamicString(Seq<char>),
}

/// A runtime value: `nil`, a boolean, a number (held as the bit pattern of
/// an IEEE-754 binary64), or an immutable text, value-equal by content.
#[derive(Debug)]
pub enum Value {
    Nil,
    Boolean(bool),
    Number(u64),
    DynamicString(String),
}

impl View for Value {
    type V = ValueV;

    open spec fn view(&self) -> ValueV {
        match self {
            Value::Nil => ValueV::Nil,
            Value::Boolean(b) => ValueV::Boolean(*b),
            Value::Number(n) => ValueV::Number(*n),
            Value::DynamicString(s) => ValueV::DynamicString(s@),
        }
    }
}

impl Value {
    /// An exact copy; `clone` is avoided so that the relation between the
    /// copy and the original is part of the contract.
    pub fn duplicate(&self) -> (r: Value)
        ensures
            r@ == self@,
    {
        match self {
            Value::Nil => Value::Nil,
            Value::Boolean(b) => Value::Boolean(*b),
            Value::Number(n) => Value::Number(*n),
            Value::DynamicString(s) => Value::DynamicString(s.clone()),
        }
    }

    /// The only falsy values are `nil` and `false`; every number and every
    /// text, the empty one included, is truthy.
    pub fn is_falsy(&self) -> (r: bool)
        ensures
            r == falsy(self@),
    {
        match self {
            Value::Nil => true,
            Value::Boolean(b) => !*b,
            _ => false,
        }
    }
}

/// Truthiness of a value: `nil` and `false` are falsy, all else is truthy.
pub open spec fn falsy(v: ValueV) -> bool {
    v == ValueV::Nil || v == ValueV::Boolean(false)
}

/// Equality of two values that are not both numbers: values of different
/// kinds are never equal, booleans and texts compare by content.
pub open spec fn non_numeric_equal(a: ValueV, b: ValueV) -> bool {
    match a {
        ValueV::Nil => b is Nil,
        ValueV::Boolean(x) => b matches ValueV::Boolean(y) && x == y,
        ValueV::DynamicString(x) => b matches ValueV::DynamicString(y) && x == y,
        ValueV::Number(_) => false,
    }
}

/// Decides [`non_numeric_equal`]; numbers are compared elsewhere, since
/// IEEE-754 equality is not equality of bit patterns.
pub fn equal_non_numeric(a: &Value, b: &Value) -> (r: bool)
    requires
        !(a@ is Number && b@ is Number),
    ensures
        r == non_numeric_equal(a@, b@),
{
    match a {
        Value::Nil => match b {
            Value::Nil => true,
            _ => false,
        },
        Value::Boolean(x) => match b {
            Value::Boolean(y) => *x == *y,
            _ => false,
        },
        Value::DynamicString(x) => match b {
            Value::DynamicString(y) => *x == *y,
            _ => false,
        },
        Value::Number(_) => false,
    }
}

/// Applying logical negation twice preserves truthiness: one `Not` turns
/// a value `v` into the boolean `falsy(v)`, and a second `Not` yields a
/// boolean that is truthy exactly when `v` is.
pub proof fn lemma_double_not(v: ValueV)
    ensures
        falsy(ValueV::Boolean(falsy(v))) == !falsy(v),
        falsy(ValueV::Boolean(falsy(ValueV::Boolean(falsy(v))))) == falsy(v),
{
}

/// A growable stack of values; the virtual machine's operand stack.
pub struct ValueArray {
    pub values: Vec<Value>,
}

impl View for ValueArray {
    type V = Seq<ValueV>;

    open spec fn view(&self) -> Seq<ValueV> {
        self.values@.map_values(|v: Value| v@)
    }
}

impl ValueArray {
    pub fn init() -> (r: Self)
        ensures
            r@ == Seq::<ValueV>::empty(),
    {
        Self { values: Vec::new() }
    }

    pub fn write(&mut self, value: Value)
        ensures
            final(self)@ == old(self)@.push(value@),
    {
        self.values.push(value);
        proof {
            assert(final(self)@ =~= old(self)@.push(value@));
        }
    }

    pub fn push(&mut self, value: Value)
        ensures
            final(self)@ == old(self)@.push(value@),
    {
        self.values.push(value);
        proof {
            assert(final(self)@ =~= old(self)@.push(value@));
        }
    }

    pub fn pop(&mut self) -> (r: Option<Value>)
        ensures
            old(self)@.len() == 0 ==> r is None && final(self)@ == old(self)@,
            old(self)@.len() > 0 ==> (r matches Some(v) && v@ == old(self)@.last()
                && final(self)@ == old(self)@.drop_last()),
    {
        let r = self.values.pop();
        proof {
            if old(self)@.len() > 0 {
                assert(final(self)@ =~= old(self)@.drop_last());
            }
        }
        r
    }

    pub fn reset(&mut self)
        ensures
            final(self)@ == Seq::<ValueV>::empty(),
    {
        self.values.clear();
        proof {
            assert(final(self)@ =~= Seq::<ValueV>::empty());
        }
    }

    pub fn len(&self) -> (r: usize)
        ensures
            r == self@.len(),
    {
        self.values.len()
    }

    pub fn peek(&self, distance: usize) -> (r: &Value)
        requires
            distance < self@.len(),
        ensures
            r@ == self@[self@.len() - 1 - distance],
    {
        let index = self.values.len() - 1 - distance;
        &self.values[index]
    }
}

} // verus!
