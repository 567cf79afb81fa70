//! Runtime values and the constant pool that holds them.

use crate::tools::text::{decimal, push_decimal};
use vstd::prelude::*;
use vstd::string::*;

verus! {

/// A value that a chunk can hold as a constant and the machine can hold in
/// a stack slot. Values are small and are copied, never shared.
#[derive(PartialEq, Eq, Debug, Clone, Copy, Structural)]
pub enum Value {
    /// A 32-bit unsigned integer.
    Int(u32),
    /// What a lookup outside the constant pool gives.
    DoesNotExist,
}

/// How a value is written in diagnostics: an integer as its decimal
/// numeral, the missing constant as a fixed phrase.
pub open spec fn value_text(value: Value) -> Seq<char> {
    match value {
        Value::Int(i) => decimal(i as nat),
        Value::DoesNotExist => "Constant does not exist"@,
    }
}

/// The constant at `index` of a pool, or `Value::DoesNotExist` where the
/// pool has no such index.
pub open spec fn constant_at(pool: Seq<Value>, index: int) -> Value {
    if 0 <= index < pool.len() {
        pool[index]
    } else {
        Value::DoesNotExist
    }
}

/// Indices are stable: writing a constant gives it the first free index
/// and changes the constant at no other index, so an index that was
/// handed out names the same constant for good, and one that was not yet
/// handed out names none.
pub proof fn lemma_write_keeps_indices(pool: Seq<Value>, value: Value, index: int)
    ensures
        constant_at(pool.push(value), index) == if index == pool.len() {
            value
        } else {
            constant_at(pool, index)
        },
{
}

impl Value {
    /// Appends the text of this value to `out`.
    pub fn push_text(&self, out: &mut String)
        ensures
            final(out)@ == old(out)@ + value_text(*self),
    {
        match self {
            Value::Int(i) => push_decimal(out, *i as u64),
            Value::DoesNotExist => out.append("Constant does not exist"),
        }
    }

    /// The text of this value.
    pub fn to_string(&self) -> (text: String)
        ensures
            text@ == value_text(*self),
    {
        let mut text = String::new();
        self.push_text(&mut text);
        assert(text@ =~= value_text(*self));
        text
    }
}

/// The constants of one chunk, in the order in which they were written.
/// A constant keeps its index for as long as the pool lives.
#[derive(PartialEq, Debug, Default)]
pub struct ConstantPool(Vec<Value>);

impl View for ConstantPool {
    type V = Seq<Value>;

    closed spec fn view(&self) -> Seq<Value> {
        self.0@
    }
}

impl ConstantPool {
    /// An empty pool.
    pub fn new() -> (pool: Self)
        ensures
            pool@ == Seq::<Value>::empty(),
    {
        ConstantPool(Vec::new())
    }

    /// The pool with `value` written behind the constants it already
    /// holds. The new constant gets the index `self@.len()`; every earlier
    /// constant keeps its own.
    pub fn write(self, value: Value) -> (pool: Self)
        ensures
            pool@ == self@.push(value),
    {
        let mut values = self.0;
        values.push(value);
        ConstantPool(values)
    }

    /// The constant at `index`, or `Value::DoesNotExist` where the pool has
    /// no such index.
    pub fn get_const(&self, index: usize) -> (value: Value)
        ensures
            value == constant_at(self@, index as int),
    {
        if index < self.0.len() {
            self.0[index]
        } else {
            Value::DoesNotExist
        }
    }

    /// How many constants the pool holds.
    pub fn len(&self) -> (count: usize)
        ensures
            count == self@.len(),
    {
        self.0.len()
    }
}

} // verus!
